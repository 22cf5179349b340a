use rasitop::text::{parse_u64_text, NumberError};
use rasitop::error::RasitopError;
use rasitop::menubar::{core_cluster_from_label, error_line, format_core_summary, format_mem, CoreCluster};
use rasitop::metrics::{active_offset, channel_role, ChannelRole, core_label_from_channel, core_sort_key, hid_group, smc_group, KeyProbe, Sampler, TemperatureGroup, FLOAT_TYPE};
use rasitop::output::{CsvFormatter, HumanFormatter, JsonFormatter};
use rasitop::pm::{cluster_kind, Battery, ClusterKind};
use rasitop::ui::AppState;

#[test]
fn only_csv_has_a_header_and_prints_it_once() {
    assert_eq!(HumanFormatter::new().format_header(), None);
    assert_eq!(JsonFormatter::new().format_header(), None);
    let mut csv = CsvFormatter::new();
    let header = csv.format_header().expect("CSV header");
    assert!(header.starts_with("timestamp,cpu_power_w,gpu_power_w"));
    assert!(header.ends_with("swap_usage_bytes,battery_percent"));
    assert_eq!(header.split(',').count(), 20);
    assert!(csv.header_due());
    assert!(!csv.header_due());
}

#[test]
fn core_summary_counts_clusters() {
    assert_eq!(format_core_summary(None), "--");
    assert_eq!(format_core_summary(Some(&[])), "--");
    let labels: Vec<String> = ["E0", "E1", "P0", "P1", "P2"].iter().map(|s| s.to_string()).collect();
    assert_eq!(format_core_summary(Some(&labels)), "E2 P3");
    let unknown: Vec<String> = ["x", "y"].iter().map(|s| s.to_string()).collect();
    assert_eq!(format_core_summary(Some(&unknown)), "2 cores");
    assert_eq!(core_cluster_from_label("E3"), CoreCluster::Efficiency);
    assert_eq!(core_cluster_from_label(""), CoreCluster::Unknown);
    assert_eq!(error_line(Some("boom")), Some("Error: boom".to_string()));
    assert_eq!(error_line(None), None);
}

#[test]
fn core_labels_and_their_order() {
    assert_eq!(core_label_from_channel("ECPU030"), "E30");
    assert_eq!(core_label_from_channel("GPU"), "GPU");
    assert_eq!(core_label_from_channel("PCPU1 012"), "P12");
    assert!(core_sort_key("E3") < core_sort_key("P0"));
    assert!(core_sort_key("P2") < core_sort_key("P10"));
}

#[test]
fn temperature_sensors_are_grouped_by_name() {
    let probe = |name: &str, info, readable| KeyProbe { name: name.into(), info, readable };
    let probes = vec![
        probe("Tp01", Some((4, FLOAT_TYPE)), true),
        probe("Tg05", Some((4, FLOAT_TYPE)), true),
        probe("Te02", Some((2, FLOAT_TYPE)), true),
        probe("Te03", Some((4, FLOAT_TYPE)), false),
        probe("TC0P", Some((4, FLOAT_TYPE)), true),
        probe("Te04", None, true),
        probe("Te09", Some((4, FLOAT_TYPE)), true),
    ];
    assert_eq!(smc_group(&probes[0]), Some(TemperatureGroup::Cpu));
    assert_eq!(smc_group(&probes[4]), None);
    let sampler = Sampler::new(&probes);
    assert_eq!(sampler.cpu_keys(), &["Tp01".to_string(), "Te09".to_string()]);
    assert_eq!(sampler.gpu_keys(), &["Tg05".to_string()]);
    assert!(sampler.uses_smc_temperatures());
    assert_eq!(hid_group("pACC MTR Temp Sensor3"), Some(TemperatureGroup::Cpu));
    assert_eq!(hid_group("GPU MTR Temp Sensor1"), Some(TemperatureGroup::Gpu));
    assert_eq!(hid_group("NAND CH0 temp"), None);
}

#[test]
fn powermetrics_clusters_are_told_by_name() {
    assert_eq!(cluster_kind("E0-Cluster"), Some(ClusterKind::Efficiency));
    assert_eq!(cluster_kind("P1-Cluster"), Some(ClusterKind::Performance));
    assert_eq!(cluster_kind("P1-Cluster2"), None);
    assert_eq!(cluster_kind("GPU-Cluster"), None);
    assert_eq!(Battery { percent_charge: Some(69) }.percent_charge, Some(69));
    let state: AppState<u32> = AppState::new(8);
    assert!(state.history.is_empty());
}

#[test]
fn startup_errors_describe_themselves() {
    assert_eq!(RasitopError::MissingCpuFrequencies.message(), "no CPU frequencies found");
    assert_eq!(
        RasitopError::UnsupportedOs("linux".into()).message(),
        "rasitop requires macOS (detected OS: linux)"
    );
}

#[test]
fn sampled_channels_are_classified_by_group_and_name() {
    let core = "CPU Core Performance States";
    assert_eq!(channel_role("CPU Stats", core, "ECPU030"), ChannelRole::EfficiencyCore);
    assert_eq!(channel_role("CPU Stats", core, "PCPU105"), ChannelRole::PerformanceCore);
    assert_eq!(channel_role("CPU Stats", "CPU Complex Performance States", "ECPU030"), ChannelRole::Ignored);
    assert_eq!(channel_role("Energy Model", "", "GPU Energy"), ChannelRole::GpuEnergy);
    assert_eq!(channel_role("Energy Model", "", "EACC_CPU Energy"), ChannelRole::CpuEnergy);
    assert_eq!(channel_role("Energy Model", "", "ANE0"), ChannelRole::AneEnergy);
    assert_eq!(channel_role("Energy Model", "", "DRAM"), ChannelRole::Ignored);
    assert_eq!(channel_role("GPU Stats", "", "GPU Energy"), ChannelRole::Ignored);
}

#[test]
fn core_residencies_start_at_the_first_active_state() {
    let names = |list: &[&str]| list.iter().map(|s| s.to_string()).collect::<Vec<String>>();
    assert_eq!(active_offset(&names(&["IDLE", "DOWN", "V0P5", "V1P0"]), 2), Some(2));
    assert_eq!(active_offset(&names(&["OFF", "V0", "V1", "V2"]), 3), Some(1));
    assert_eq!(active_offset(&names(&["IDLE", "V0", "V1"]), 3), None);
    assert_eq!(active_offset(&names(&["IDLE", "DOWN", "OFF"]), 1), None);
    assert_eq!(active_offset(&names(&["IDLE", "OFF", "V0"]), 2), None);
    assert_eq!(active_offset(&names(&["V0", "V1"]), 0), None);
}

#[test]
fn format_mem_missing_total_returns_placeholder() {
    assert_eq!(format_mem(Some(1), None), "--");
}

fn memory_line_from_doubles(usage: u64, total: u64) -> String {
    let gib = 1024.0 * 1024.0 * 1024.0;
    format!("{:.1}/{:.1}GB", usage as f64 / gib, total as f64 / gib)
}

#[test]
fn memory_line_shows_tenths_of_gibibytes() {
    assert_eq!(format_mem(Some(8 << 30), Some(16 << 30)), "8.0/16.0GB");
    assert_eq!(format_mem(Some(1 << 28), Some(3 << 28)), "0.2/0.8GB");
    assert_eq!(format_mem(Some(0), Some(1)), "0.0/0.0GB");
    assert_eq!(format_mem(None, Some(1)), "--");
    assert_eq!(format_mem(Some(1), Some(0)), "--");
    assert_eq!(format_mem(Some(u64::MAX), Some(u64::MAX)), memory_line_from_doubles(u64::MAX, u64::MAX));
}

#[test]
fn memory_line_agrees_with_double_formatting() {
    let mut state: u64 = 0x9e37_79b9_7f4a_7c15;
    let mut next = || {
        state ^= state << 13;
        state ^= state >> 7;
        state ^= state << 17;
        state
    };
    for shift in 0..64 {
        for _ in 0..200 {
            let usage = next() >> shift;
            let total = (next() >> shift).max(1);
            assert_eq!(format_mem(Some(usage), Some(total)), memory_line_from_doubles(usage, total));
        }
    }
    for k in 0..2000_u64 {
        let quarter = k << 28;
        assert_eq!(format_mem(Some(quarter), Some(quarter + (1 << 28))), memory_line_from_doubles(quarter, quarter + (1 << 28)));
    }
    for bits in 53..64 {
        let base: u64 = 1 << bits;
        for offset in 0..64_u64 {
            let value = base + offset * (1 << (bits - 53)) / 2;
            assert_eq!(format_mem(Some(value), Some(value | 1)), memory_line_from_doubles(value, value | 1));
        }
    }
}

#[test]
fn numbers_parse_as_u64_from_str_does() {
    assert_eq!(parse_u64_text(&[]), Err(NumberError::Empty));
    assert_eq!(parse_u64_text(&['+']), Err(NumberError::InvalidDigit));
    assert_eq!(parse_u64_text(&['-']), Err(NumberError::InvalidDigit));
    assert_eq!(parse_u64_text(&['+', '4', '2']), Ok(42));
    assert_eq!("+".parse::<u64>().unwrap_err().to_string(), "invalid digit found in string");
}
