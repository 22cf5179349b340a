use rasitop::record::{gpu_sample_due, recording_finished, validate_options, RecordError, RecordOptions};

const S: u64 = 1_000_000_000;

#[test]
fn gpu_cadence_uses_existing_deadlines_without_catch_up_bursts() {
    let start = 100 * S;
    let mut next_gpu = start + 2 * S;
    assert!(!gpu_sample_due(start + S, &mut next_gpu));
    assert!(gpu_sample_due(start + 2 * S, &mut next_gpu));
    assert!(!gpu_sample_due(start + 3 * S, &mut next_gpu));
    assert!(gpu_sample_due(start + 9 * S, &mut next_gpu));
    assert_eq!(next_gpu, start + 10 * S);
}

#[test]
fn served_gpu_deadlines_stay_on_their_grid() {
    let mut next_gpu = 4 * S;
    assert!(gpu_sample_due(4 * S + 1, &mut next_gpu));
    assert_eq!(next_gpu, 6 * S);
    assert!(gpu_sample_due(13 * S, &mut next_gpu));
    assert_eq!(next_gpu, 14 * S);
}

#[test]
fn recording_stops_at_the_count_or_the_end() {
    let counted = RecordOptions { interval_ns: S, duration_ns: None, count: Some(3) };
    assert!(!recording_finished(&counted, 2, 5 * S, None));
    assert!(recording_finished(&counted, 3, 5 * S, None));
    let timed = RecordOptions { interval_ns: S, duration_ns: Some(10 * S), count: None };
    assert!(!recording_finished(&timed, 100, 10 * S, Some(10 * S)));
    assert!(recording_finished(&timed, 100, 10 * S + 1, Some(10 * S)));
    assert!(validate_options(&timed).is_ok());
    let zero = RecordOptions { interval_ns: 0, duration_ns: None, count: None };
    assert!(matches!(validate_options(&zero), Err(RecordError::ZeroInterval)));
}
