use rasitop::cpu::{
    build_per_core_samples, CpuDeltas, CpuError, CpuShares, CpuTicks, MachCpuProvider,
    MachPerCoreProvider, PerCoreShares,
};

fn ratio(ticks: u64, total: u64) -> f64 {
    ticks as f64 / total as f64
}

fn assert_close(actual: f64, expected: f64) {
    assert!((actual - expected).abs() < 1e-12, "{actual} != {expected}");
}

fn total_ratio(shares: &CpuShares) -> f64 {
    ratio(shares.user, shares.total) + ratio(shares.system, shares.total)
        + ratio(shares.nice, shares.total)
}

#[test]
fn mach_failures_preserve_the_native_status() {
    let error = CpuError::HostStatistics { status: 5 };
    assert_eq!(
        error.message(),
        "host_statistics(HOST_CPU_LOAD_INFO) failed with kern_return_t 5"
    );
}

#[test]
fn computes_cpu_ratios_from_tick_deltas() {
    let previous = CpuTicks { user: 100, system: 200, idle: 300, nice: 400 };
    let current = CpuTicks { user: 140, system: 220, idle: 330, nice: 410 };

    let sample = current.deltas_since(previous).ratios().expect("non-zero delta");

    assert_close(ratio(sample.user, sample.total), 0.4);
    assert_close(ratio(sample.system, sample.total), 0.2);
    assert_close(ratio(sample.idle, sample.total), 0.3);
    assert_close(ratio(sample.nice, sample.total), 0.1);
    assert_close(total_ratio(&sample), 0.7);
}

#[test]
fn returns_none_when_no_ticks_advance() {
    assert_eq!(CpuDeltas { user: 0, system: 0, idle: 0, nice: 0 }.ratios(), None);
}

#[test]
fn handles_natural_t_counter_wrap() {
    let previous = CpuTicks { user: u32::MAX - 1, system: 10, idle: 20, nice: 30 };
    let current = CpuTicks { user: 2, system: 11, idle: 22, nice: 33 };

    assert_eq!(
        current.deltas_since(previous),
        CpuDeltas { user: 4, system: 1, idle: 2, nice: 3 }
    );
}

#[test]
fn preserves_user_and_system_ratios_for_each_logical_cpu() {
    let previous = [
        CpuTicks { user: 10, system: 20, idle: 30, nice: 40 },
        CpuTicks { user: 100, system: 200, idle: 300, nice: 400 },
    ];
    let current = [
        CpuTicks { user: 14, system: 22, idle: 33, nice: 41 },
        CpuTicks { user: 101, system: 205, idle: 302, nice: 402 },
    ];
    let mut samples = Vec::<PerCoreShares>::new();

    build_per_core_samples(&current, &previous, &mut samples);

    assert_eq!(samples.len(), 2);
    assert_eq!(samples[0].logical_cpu, 0);
    assert_close(ratio(samples[0].usage.user, samples[0].usage.total), 0.4);
    assert_close(ratio(samples[0].usage.system, samples[0].usage.total), 0.2);
    assert_close(total_ratio(&samples[0].usage), 0.7);
    assert_eq!(samples[1].logical_cpu, 1);
    assert_close(ratio(samples[1].usage.user, samples[1].usage.total), 0.1);
    assert_close(ratio(samples[1].usage.system, samples[1].usage.total), 0.5);
    assert_close(total_ratio(&samples[1].usage), 0.8);
}

#[test]
fn shares_of_an_interval_add_up_to_its_ticks() {
    let shares = CpuTicks { user: 7, system: 9, idle: 1, nice: 3 }
        .deltas_since(CpuTicks { user: 2, system: 4, idle: 0, nice: 0 })
        .ratios()
        .expect("ticks advanced");
    assert_eq!(shares, CpuShares { user: 5, system: 5, idle: 1, nice: 3, total: 14 });
    assert_eq!(shares.user + shares.system + shares.idle + shares.nice, shares.total);
}

#[test]
fn a_wrapped_counter_delta_lands_on_the_current_value() {
    let previous = u32::MAX - 5;
    let deltas = CpuTicks { user: 4, system: 0, idle: 0, nice: 0 }
        .deltas_since(CpuTicks { user: previous, system: 0, idle: 0, nice: 0 });
    assert_eq!(deltas.user, 10);
    assert_eq!((previous as u64 + deltas.user) % (1u64 << 32), 4);
}

#[test]
fn aggregate_provider_reports_from_the_second_read() {
    let mut provider = MachCpuProvider::new();
    assert_eq!(provider.sample(Ok(CpuTicks { user: 1, system: 1, idle: 1, nice: 1 })).unwrap(), None);
    let usage = provider
        .sample(Ok(CpuTicks { user: 3, system: 2, idle: 2, nice: 1 }))
        .unwrap()
        .expect("second read has a baseline");
    assert_eq!(usage.total, 4);
    assert!(matches!(
        provider.sample(Err(CpuError::HostStatistics { status: 3 })),
        Err(CpuError::HostStatistics { status: 3 })
    ));
    let after_failure = provider
        .sample(Ok(CpuTicks { user: 4, system: 2, idle: 2, nice: 1 }))
        .unwrap()
        .expect("a failed read keeps the baseline");
    assert_eq!(after_failure.user, 1);
}

#[test]
fn aggregate_reset_discards_the_baseline_on_failure() {
    let mut provider = MachCpuProvider::new();
    provider.sample(Ok(CpuTicks { user: 1, system: 1, idle: 1, nice: 1 })).unwrap();
    assert!(provider.reset(Err(CpuError::HostStatistics { status: 9 })).is_err());
    assert_eq!(provider.sample(Ok(CpuTicks { user: 5, system: 1, idle: 1, nice: 1 })).unwrap(), None);
}

#[test]
fn per_core_provider_rebaselines_when_cpus_change() {
    let mut provider = MachPerCoreProvider::new();
    let one = CpuTicks { user: 1, system: 1, idle: 1, nice: 1 };
    let two = CpuTicks { user: 2, system: 1, idle: 1, nice: 1 };
    assert_eq!(provider.sample(Ok(vec![one, one])).unwrap(), false);
    assert_eq!(provider.sample(Ok(vec![two, one])).unwrap(), true);
    assert_eq!(provider.samples().len(), 1);
    assert_eq!(provider.samples()[0].logical_cpu, 0);
    assert_eq!(provider.sample(Ok(vec![two])).unwrap(), false);
    assert!(provider.samples().is_empty());
    assert!(provider.sample(Err(CpuError::HostProcessorInfo { status: 4 })).is_err());
    assert_eq!(
        CpuError::HostProcessorInfo { status: -4 }.message(),
        "host_processor_info(PROCESSOR_CPU_LOAD_INFO) failed with kern_return_t -4"
    );
}

#[test]
fn per_core_entries_are_exactly_the_cpus_that_advanced() {
    let mut provider = MachPerCoreProvider::new();
    let idle = CpuTicks { user: 1, system: 1, idle: 1, nice: 1 };
    let busy = CpuTicks { user: 3, system: 1, idle: 2, nice: 1 };
    assert_eq!(provider.sample(Ok(vec![idle, idle, idle])).unwrap(), false);
    assert_eq!(provider.sample(Ok(vec![idle, busy, busy])).unwrap(), true);
    let cpus: Vec<u32> = provider.samples().iter().map(|s| s.logical_cpu).collect();
    assert_eq!(cpus, vec![1, 2]);
    assert_eq!(provider.samples()[0].usage.total, 3);
    assert_eq!(provider.samples()[0].usage.user, 2);
}
