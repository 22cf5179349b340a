use rasitop::cpu::{CpuError, CpuTicks};
use rasitop::gpu::GpuError;
use rasitop::smc::error::SmcError;
use rasitop::engine::{
    duration_ns, CpuEngine, EmissionTimeline, EngineError, HistoryBuffer, HistoryPoint,
    SampleRequest, Share, GPU_HISTORY_CAPACITY, HISTORY_CAPACITY,
};

const MS: u64 = 1_000_000;
const S: u64 = 1_000_000_000;

fn point(monotonic_ns: u64) -> HistoryPoint {
    HistoryPoint { monotonic_ns, busy: 0, total: 0 }
}

#[test]
fn engine_errors_keep_the_cpu_error_as_their_source() {
    let error = EngineError::AggregateSample(CpuError::HostStatistics { status: 5 });
    assert_eq!(error.message(), "failed to sample aggregate CPU utilization");
    assert_eq!(
        error.source().message(),
        "host_statistics(HOST_CPU_LOAD_INFO) failed with kern_return_t 5"
    );
}

#[test]
fn intervals_span_only_emitted_snapshots() {
    let started_at = 5 * S;
    let mut timeline = EmissionTimeline::new(started_at);

    let first = timeline.record_emission(started_at + 100 * MS);
    assert_eq!(first.sequence, 1);
    assert_eq!(first.monotonic_ns, 100 * MS);
    assert_eq!(first.interval_ns, 100 * MS);

    // A poll at 200 ms that produces no snapshot never reaches
    // `record_emission`, so it cannot shorten the following interval.
    let second = timeline.record_emission(started_at + 1_100 * MS);
    assert_eq!(second.sequence, 2);
    assert_eq!(second.monotonic_ns, 1_100 * MS);
    assert_eq!(second.interval_ns, S);
}

#[test]
fn resetting_timeline_excludes_a_wake_gap_from_the_next_interval() {
    let started_at = 7 * S;
    let mut timeline = EmissionTimeline::new(started_at);

    timeline.record_emission(started_at + S);
    timeline.reset_interval(started_at + 60 * S);
    let after_wake = timeline.record_emission(started_at + 61 * S);

    assert_eq!(after_wake.sequence, 2);
    assert_eq!(after_wake.monotonic_ns, 61 * S);
    assert_eq!(after_wake.interval_ns, S);
}

#[test]
fn numeric_duration_saturates_instead_of_wrapping() {
    assert_eq!(duration_ns(42), 42);
    assert_eq!(duration_ns(std::time::Duration::MAX.as_nanos()), u64::MAX);
}

#[test]
fn sample_requests_reject_unknown_bits() {
    assert_eq!(SampleRequest::from_bits(0), Some(SampleRequest::none()));
    assert_eq!(
        SampleRequest::from_bits((SampleRequest::per_core() | SampleRequest::sensors()).bits()),
        Some(SampleRequest::per_core() | SampleRequest::sensors())
    );
    assert_eq!(SampleRequest::from_bits(1 << 31), None);
}

#[test]
fn history_keeps_the_latest_points_in_oldest_to_newest_order() {
    let mut history: HistoryBuffer<HistoryPoint, HISTORY_CAPACITY> = HistoryBuffer::new();
    for value in 1..=(HISTORY_CAPACITY + 2) {
        history.push(HistoryPoint { monotonic_ns: value as u64, busy: value as u64, total: 1_000 });
    }

    let mut all = [point(0); HISTORY_CAPACITY];
    assert_eq!(history.copy_into(&mut all), HISTORY_CAPACITY);
    assert_eq!(all[0].monotonic_ns, 3);
    assert_eq!(all[HISTORY_CAPACITY - 1].monotonic_ns, 182);

    let mut latest = [point(0); 2];
    assert_eq!(history.copy_into(&mut latest), 2);
    assert_eq!(latest[0].monotonic_ns, 181);
    assert_eq!(latest[1].monotonic_ns, 182);
}

#[test]
fn gpu_history_keeps_ninety_one_second_samples_and_preserves_gaps() {
    let mut history: HistoryBuffer<HistoryPoint, GPU_HISTORY_CAPACITY> = HistoryBuffer::new();
    for value in 1..=GPU_HISTORY_CAPACITY {
        history.push(HistoryPoint { monotonic_ns: value as u64, busy: 1, total: 2 });
    }
    history.push(HistoryPoint { monotonic_ns: 91, busy: 0, total: 0 });
    let mut points = [point(0); GPU_HISTORY_CAPACITY];
    assert_eq!(history.copy_into(&mut points), GPU_HISTORY_CAPACITY);
    assert_eq!(points[0].monotonic_ns, 2);
    assert_eq!(points[GPU_HISTORY_CAPACITY - 1].monotonic_ns, 91);
    assert_eq!(points[GPU_HISTORY_CAPACITY - 1].total, 0);
}

#[test]
fn short_history_copies_leave_the_rest_of_the_output_alone() {
    let mut history: HistoryBuffer<HistoryPoint, 4> = HistoryBuffer::new();
    history.push(point(10));
    history.push(point(20));
    let mut output = [point(99); 3];
    assert_eq!(history.copy_into(&mut output), 2);
    assert_eq!(output[0].monotonic_ns, 10);
    assert_eq!(output[1].monotonic_ns, 20);
    assert_eq!(output[2].monotonic_ns, 99);
    assert_eq!(history.len(), 2);
}

#[test]
fn a_window_after_many_pushes_holds_the_newest_points() {
    let mut history: HistoryBuffer<u64, 3> = HistoryBuffer::new();
    for value in 1..=10u64 {
        history.push(value);
    }
    let mut output = [0u64; 3];
    assert_eq!(history.copy_into(&mut output), 3);
    assert_eq!(output, [8, 9, 10]);
}

#[test]
fn sample_request_union_and_contains() {
    let both = SampleRequest::gpu().union(SampleRequest::sensors());
    assert_eq!(both.bits(), 6);
    assert!(both.contains(SampleRequest::gpu()));
    assert!(!both.contains(SampleRequest::per_core()));
    assert!(!SampleRequest::none().contains(SampleRequest::none()));
}

fn ticks(user: u32, idle: u32) -> CpuTicks {
    CpuTicks { user, system: 0, idle, nice: 0 }
}

#[test]
fn engine_emits_from_the_second_aggregate_read() {
    let mut engine = CpuEngine::new(Ok(ticks(0, 0)), None, None, None, 0).expect("baseline");
    let request = SampleRequest::gpu();
    assert!(!engine.reads_per_core(request));
    let snapshot = engine
        .sample(request, S, Ok(ticks(3, 1)), None, Some(Ok(Some(Share { busy: 1, total: 4 }))))
        .expect("sample")
        .expect("snapshot");
    assert_eq!(snapshot.sequence, 1);
    assert_eq!(snapshot.monotonic_ns, S);
    assert_eq!(snapshot.interval_ns, S);
    assert_eq!(snapshot.aggregate.total, 4);
    assert!(snapshot.per_core.is_empty());

    let mut history = [point(0); 2];
    assert_eq!(engine.history(&mut history), 1);
    assert_eq!(history[0], HistoryPoint { monotonic_ns: S, busy: 3, total: 4 });
    let mut gpu = [point(0); 2];
    assert_eq!(engine.gpu_history(&mut gpu), 1);
    assert_eq!(gpu[0], HistoryPoint { monotonic_ns: S, busy: 1, total: 4 });
}

#[test]
fn engine_skips_snapshots_when_no_tick_advanced() {
    let mut engine = CpuEngine::new(Ok(ticks(5, 5)), None, None, None, 0).expect("baseline");
    let none = engine
        .sample(SampleRequest::none(), S, Ok(ticks(5, 5)), None, None)
        .expect("sample");
    assert!(none.is_none());
    let next = engine
        .sample(SampleRequest::none(), 2 * S, Ok(ticks(6, 5)), None, None)
        .expect("sample")
        .expect("snapshot");
    assert_eq!(next.sequence, 1);
    assert_eq!(next.interval_ns, 2 * S);
    let mut gpu = [point(0); 1];
    assert_eq!(engine.gpu_history(&mut gpu), 0);
}

#[test]
fn engine_errors_name_the_failed_read() {
    assert!(matches!(
        CpuEngine::new(Err(CpuError::HostStatistics { status: 1 }), None, None, None, 0),
        Err(EngineError::AggregateBaseline(CpuError::HostStatistics { status: 1 }))
    ));
    assert!(matches!(
        CpuEngine::new(Ok(ticks(0, 0)), Some(Err(CpuError::HostProcessorInfo { status: 2 })), None, None, 0),
        Err(EngineError::PerCoreBaseline(CpuError::HostProcessorInfo { status: 2 }))
    ));
    let mut engine = CpuEngine::new(Ok(ticks(0, 0)), Some(Ok(vec![ticks(0, 0)])), None, None, 0).expect("engine");
    let request = SampleRequest::per_core();
    assert!(engine.reads_per_core(request));
    assert!(matches!(
        engine.sample(request, S, Ok(ticks(1, 0)), Some(Err(CpuError::HostProcessorInfo { status: 3 })), None),
        Err(EngineError::PerCoreSample(CpuError::HostProcessorInfo { status: 3 }))
    ));
    let snapshot = engine
        .sample(request, 2 * S, Ok(ticks(2, 0)), Some(Ok(vec![ticks(1, 1)])), None)
        .expect("sample")
        .expect("snapshot");
    assert_eq!(snapshot.per_core.len(), 1);
    assert_eq!(snapshot.per_core[0].usage.total, 2);
}

#[test]
fn engine_reset_restarts_the_interval() {
    let mut engine = CpuEngine::new(Ok(ticks(0, 0)), None, None, None, 0).expect("engine");
    engine.sample(SampleRequest::none(), S, Ok(ticks(1, 0)), None, None).unwrap();
    engine.reset_cpu_baselines(60 * S, Ok(ticks(10, 10)), None).expect("reset");
    let after_wake = engine
        .sample(SampleRequest::none(), 61 * S, Ok(ticks(11, 10)), None, None)
        .expect("sample")
        .expect("snapshot");
    assert_eq!(after_wake.sequence, 2);
    assert_eq!(after_wake.interval_ns, S);
    assert_eq!(after_wake.monotonic_ns, 61 * S);
}

#[test]
fn emissions_are_numbered_and_only_emitted_points_are_kept() {
    let mut engine = CpuEngine::new(Ok(ticks(0, 0)), None, None, None, 0).expect("engine");
    let first = engine.sample(SampleRequest::none(), S, Ok(ticks(1, 1)), None, None).unwrap().unwrap();
    let skipped = engine.sample(SampleRequest::none(), 2 * S, Ok(ticks(1, 1)), None, None).unwrap();
    assert!(skipped.is_none());
    assert!(engine.sample(SampleRequest::none(), 3 * S, Err(CpuError::HostStatistics { status: 9 }), None, None).is_err());
    let second = engine.sample(SampleRequest::none(), 4 * S, Ok(ticks(3, 1)), None, None).unwrap().unwrap();
    assert_eq!((first.sequence, second.sequence), (1, 2));
    assert_eq!(second.interval_ns, 3 * S);
    let mut history = [point(0); 4];
    assert_eq!(engine.history(&mut history), 2);
    assert_eq!(history[0], HistoryPoint { monotonic_ns: S, busy: 1, total: 2 });
    assert_eq!(history[1], HistoryPoint { monotonic_ns: 4 * S, busy: 2, total: 2 });
    assert_eq!(history[2], point(0));
}

#[test]
fn a_reset_keeps_the_sequence_and_the_history() {
    let mut engine = CpuEngine::new(Ok(ticks(0, 0)), None, None, None, 0).expect("engine");
    engine.sample(SampleRequest::none(), S, Ok(ticks(1, 0)), None, None).unwrap();
    assert!(engine.reset_cpu_baselines(30 * S, Err(CpuError::HostStatistics { status: 4 }), None).is_err());
    let none = engine.sample(SampleRequest::none(), 31 * S, Ok(ticks(5, 5)), None, None).unwrap();
    assert!(none.is_none());
    let next = engine.sample(SampleRequest::none(), 32 * S, Ok(ticks(6, 5)), None, None).unwrap().unwrap();
    assert_eq!(next.sequence, 2);
    assert_eq!(next.interval_ns, 32 * S - 30 * S);
    assert_eq!(next.monotonic_ns, 32 * S);
    let mut history = [point(0); 3];
    assert_eq!(engine.history(&mut history), 2);
    assert_eq!(history[0].monotonic_ns, S);
    assert_eq!(history[1].monotonic_ns, 32 * S);
}

#[test]
fn engine_keeps_sensor_and_gpu_failures_for_diagnostics() {
    let engine = CpuEngine::new(
        Ok(ticks(0, 0)),
        None,
        Some(SmcError::NoSensors),
        Some(GpuError::InvalidTotal { sequence: 0 }),
        0,
    )
    .expect("CPU-only engine");
    assert!(matches!(engine.sensor_error(), Some(SmcError::NoSensors)));
    assert!(matches!(engine.gpu_error(), Some(GpuError::InvalidTotal { sequence: 0 })));

    let mut engine = CpuEngine::new(Ok(ticks(0, 0)), None, None, None, 0).expect("engine");
    assert!(engine.sensor_error().is_none() && engine.gpu_error().is_none());
    engine
        .sample(SampleRequest::gpu(), S, Ok(ticks(1, 1)), None, Some(Err(GpuError::MissingState { sequence: 7 })))
        .unwrap()
        .unwrap();
    assert!(matches!(engine.gpu_error(), Some(GpuError::MissingState { sequence: 7 })));
    engine
        .sample(SampleRequest::gpu(), 2 * S, Ok(ticks(2, 2)), None, Some(Ok(Some(Share { busy: 1, total: 2 }))))
        .unwrap()
        .unwrap();
    assert!(engine.gpu_error().is_none());
    let mut gpu = [point(0); 3];
    assert_eq!(engine.gpu_history(&mut gpu), 2);
    assert_eq!(gpu[0], HistoryPoint { monotonic_ns: S, busy: 0, total: 0 });
    assert_eq!(gpu[1], HistoryPoint { monotonic_ns: 2 * S, busy: 1, total: 2 });
}

#[test]
fn per_core_baselines_follow_the_reads_and_the_reset() {
    let mut engine =
        CpuEngine::new(Ok(ticks(0, 0)), Some(Ok(vec![ticks(0, 0)])), None, None, 0).expect("engine");
    let request = SampleRequest::per_core();
    let first = engine
        .sample(request, S, Ok(ticks(1, 1)), Some(Ok(vec![ticks(1, 1)])), None)
        .unwrap()
        .unwrap();
    assert_eq!(first.per_core[0].usage.total, 2);
    engine
        .reset_cpu_baselines(10 * S, Ok(ticks(10, 10)), Some(Ok(vec![ticks(10, 10)])))
        .expect("reset");
    let after = engine
        .sample(request, 11 * S, Ok(ticks(11, 11)), Some(Ok(vec![ticks(12, 10)])), None)
        .unwrap()
        .unwrap();
    assert_eq!(after.per_core.len(), 1);
    assert_eq!(after.per_core[0].usage.total, 2);
    assert_eq!(after.per_core[0].usage.user, 2);
    assert!(engine
        .reset_cpu_baselines(20 * S, Ok(ticks(20, 20)), Some(Err(CpuError::HostProcessorInfo { status: 1 })))
        .is_err());
    let rebased = engine
        .sample(request, 21 * S, Ok(ticks(21, 21)), Some(Ok(vec![ticks(13, 11)])), None)
        .unwrap()
        .unwrap();
    assert!(rebased.per_core.is_empty());
}
