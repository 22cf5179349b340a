use rasitop::cpu::CpuError;
use rasitop::engine::{EngineError, SampleRequest};
use rasitop::ffi::{
    engine_status, request_for, sample_status, STATUS_ERROR_ENGINE, STATUS_ERROR_INVALID_ARGUMENT, STATUS_OK,
    STATUS_SAMPLE_READY,
};
use rasitop::record::attempt_request;

#[test]
fn request_flags_with_unknown_bits_are_refused() {
    assert_eq!(request_for(8).err(), Some(STATUS_ERROR_INVALID_ARGUMENT));
    assert_eq!(request_for(7).ok().map(|r| r.bits()), Some(7));
    assert_eq!(request_for(0).ok().map(|r| r.bits()), Some(0));
}

#[test]
fn sample_outcomes_map_to_their_statuses() {
    assert_eq!(sample_status(&Ok(None)), STATUS_OK);
    let failed = Err(EngineError::AggregateSample(CpuError::HostStatistics { status: 5 }));
    assert_eq!(sample_status(&failed), STATUS_ERROR_ENGINE);
    assert_eq!(engine_status(&Ok::<(), EngineError>(())), STATUS_OK);
    let failed: Result<(), EngineError> = Err(EngineError::PerCoreBaseline(CpuError::HostStatistics { status: 5 }));
    assert_eq!(engine_status(&failed), STATUS_ERROR_ENGINE);
    assert_eq!(STATUS_SAMPLE_READY, 1);
}

#[test]
fn record_attempts_always_ask_for_sensors() {
    assert_eq!(attempt_request(false, false).bits(), SampleRequest::sensors().bits());
    assert_eq!(attempt_request(true, false).bits(), 3);
    assert_eq!(attempt_request(false, true).bits(), 6);
    assert_eq!(attempt_request(true, true).bits(), 7);
}
