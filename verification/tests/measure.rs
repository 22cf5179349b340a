use rasitop::measure::{
    advance_deadline, expected_attempts, percentile, summarize, validate_options, LatencySummary, MeasureError,
    MeasureMode, MeasureOptions, MeasuredRun, Measurement, MeasurementError,
};

#[test]
fn summarizes_latency_distribution_with_nearest_rank_percentiles() {
    let mut values = (1..=100).collect::<Vec<u64>>();
    assert_eq!(
        summarize(&mut values),
        Some(LatencySummary { min: 1, mean: 50, p50: 50, p95: 95, p99: 99, max: 100 })
    );
}

#[test]
fn empty_latency_distribution_has_no_summary() {
    assert_eq!(summarize(&mut []), None);
}

#[test]
fn summaries_ignore_the_order_of_measurements() {
    let mut ascending = vec![5u64, 10, 20, 40];
    let mut shuffled = vec![40u64, 5, 20, 10];
    let a = summarize(&mut ascending).unwrap();
    let b = summarize(&mut shuffled).unwrap();
    assert_eq!(a, b);
    assert_eq!(shuffled, vec![5, 10, 20, 40]);
    assert!(a.min <= a.p50 && a.p50 <= a.p95 && a.p95 <= a.p99 && a.p99 <= a.max);
    assert_eq!(a.mean, 18);
}

#[test]
fn single_measurement_is_every_percentile() {
    let mut values = vec![7u64];
    assert_eq!(
        summarize(&mut values),
        Some(LatencySummary { min: 7, mean: 7, p50: 7, p95: 7, p99: 7, max: 7 })
    );
}

#[test]
fn measure_options_need_a_positive_interval_within_the_duration() {
    let options = |interval_ns, duration_ns| MeasureOptions { mode: MeasureMode::Aggregate, interval_ns, duration_ns };
    assert_eq!(validate_options(&options(0, 10)), Err(MeasureError::ZeroInterval));
    assert_eq!(validate_options(&options(10, 5)), Err(MeasureError::DurationShorterThanInterval));
    assert_eq!(validate_options(&options(10, 10)), Ok(()));
    assert!(MeasureMode::PerCore.samples_per_core());
    assert!(!MeasureMode::Aggregate.samples_per_core());
}

#[test]
fn missed_deadlines_are_skipped_not_replayed() {
    assert_eq!(advance_deadline(100, 100, 150, 1_000), (200, 0));
    assert_eq!(advance_deadline(100, 100, 450, 1_000), (500, 3));
    assert_eq!(advance_deadline(100, 100, 5_000, 350), (400, 2));
}

#[test]
fn measurement_runs_summarize_their_attempts() {
    let options = MeasureOptions { mode: MeasureMode::PerCore, interval_ns: 10, duration_ns: 35 };
    assert_eq!(expected_attempts(&options), 3);
    let mut run = Measurement::new(expected_attempts(&options));
    run.record_attempt(30, None);
    run.record_attempt(10, Some(4));
    run.record_attempt(20, Some(6));
    run.add_missed(2);
    let summary = run.finish(&options, 40).expect("attempts were made");
    assert_eq!(summary.attempts, 3);
    assert_eq!(summary.samples_ready, 2);
    assert_eq!(summary.missed_deadlines, 2);
    assert_eq!(summary.elapsed_ns, 40);
    assert_eq!(summary.attempt_duration_ns.min, 10);
    assert_eq!(summary.attempt_duration_ns.max, 30);
    assert_eq!(summary.snapshot_duration_ns.map(|s| s.mean), Some(5));
    assert_eq!(summary.mode, MeasureMode::PerCore);

    let empty = Measurement::new(0);
    assert!(matches!(empty.finish(&options, 0), Err(MeasurementError::NoAttempts)));
}

#[test]
fn measured_run_keeps_its_schedule_within_the_duration() {
    let options = MeasureOptions { mode: MeasureMode::Aggregate, interval_ns: 10, duration_ns: 35 };
    assert!(MeasuredRun::start(&options, u64::MAX - 40).is_none());
    let mut run = MeasuredRun::start(&options, 100).unwrap();
    assert_eq!(run.next_deadline(), 110);
    assert!(run.attempt_due());
    run.record(5, Some(3), 112);
    assert_eq!(run.next_deadline(), 120);
    assert!(run.attempt_due());
    run.record(6, None, 150);
    assert_eq!(run.next_deadline(), 140);
    assert!(!run.attempt_due());
    assert_eq!(run.attempts(), 2);
    let summary = run.finish(60).unwrap();
    assert_eq!(summary.attempts, 2);
    assert_eq!(summary.samples_ready, 1);
    assert_eq!(summary.missed_deadlines, 1);
    assert!(summary.attempts + summary.missed_deadlines <= 35 / 10);
    assert_eq!(summary.snapshot_duration_ns.map(|s| s.max), Some(3));
    assert_eq!(summary.elapsed_ns, 60);
}

#[test]
fn measured_run_without_attempts_has_no_summary() {
    let options = MeasureOptions { mode: MeasureMode::PerCore, interval_ns: 10, duration_ns: 10 };
    let run = MeasuredRun::start(&options, 0).unwrap();
    assert!(run.attempt_due());
    assert_eq!(run.finish(1).unwrap_err(), MeasurementError::NoAttempts);
}

#[test]
fn nearest_ranks_round_up_past_whole_hundreds() {
    let values = (1..=250).collect::<Vec<u64>>();
    assert_eq!(percentile(&values, 50), 125);
    assert_eq!(percentile(&values, 95), 238);
    assert_eq!(percentile(&values, 99), 248);
    assert_eq!(percentile(&values, 100), 250);
    assert_eq!(percentile(&values[..3], 1), 1);
    assert_eq!(percentile(&values[..3], 34), 2);
}
