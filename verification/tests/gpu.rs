use rasitop::gpu::{
    catalog_for, current_catalog, decode, m4_pro_26a5388g, regression_gate_passed, system_identity_text, GpuError,
    ResidencyRecord,
};

fn records() -> Vec<ResidencyRecord> {
    m4_pro_26a5388g()
        .states
        .iter()
        .enumerate()
        .map(|(index, name)| ResidencyRecord {
            sequence: 7,
            monotonic_ms: 2_000,
            sample_duration_us: 400,
            group: "GPU Stats".into(),
            subgroup: "GPU Performance States".into(),
            channel: "GPUPH".into(),
            unit: "24Mticks".into(),
            state_index: index as u32,
            state_name: name.clone(),
            residency_ticks: if index == 0 { 75 } else { u64::from(index == 1) * 25 },
            total_ticks: 100,
        })
        .collect()
}

#[test]
fn exact_layout_decodes_busy_residency_independent_of_row_order() {
    let mut fixture = records();
    fixture.reverse();
    let sample = decode(&m4_pro_26a5388g(), &fixture).expect("validated fixture");
    assert_eq!(sample[0].residency_busy_ticks, 25);
    assert_eq!(
        sample[0].residency_busy_ticks as f64 / sample[0].residency_total_ticks as f64,
        0.25
    );
}

#[test]
fn unknown_or_reordered_state_names_fail_closed() {
    let mut fixture = records();
    fixture[1].state_name = "P2".into();
    assert!(matches!(
        decode(&m4_pro_26a5388g(), &fixture),
        Err(GpuError::StateNameMismatch { index: 1, .. })
    ));
}

#[test]
fn missing_states_and_zero_totals_fail_closed() {
    let mut missing = records();
    missing.pop();
    assert!(matches!(decode(&m4_pro_26a5388g(), &missing), Err(GpuError::MissingState { .. })));

    let mut zero = records();
    for record in &mut zero {
        record.residency_ticks = 0;
        record.total_ticks = 0;
    }
    assert!(matches!(decode(&m4_pro_26a5388g(), &zero), Err(GpuError::InvalidTotal { .. })));
}

#[test]
fn catalog_is_exact_to_machine_and_os_build() {
    assert!(catalog_for("Mac16,8", "26A5388g").is_some());
    assert!(catalog_for("Mac16,8", "future").is_none());
    assert!(catalog_for("Mac16,7", "26A5388g").is_none());
}

#[test]
fn decoded_samples_come_in_ascending_sequence_order() {
    let mut fixture = Vec::new();
    for sequence in [9u64, 3, 6] {
        for mut record in records() {
            record.sequence = sequence;
            fixture.push(record);
        }
    }
    fixture.reverse();
    let samples = decode(&m4_pro_26a5388g(), &fixture).expect("valid capture");
    let sequences: Vec<u64> = samples.iter().map(|s| s.sequence).collect();
    assert_eq!(sequences, vec![3, 6, 9]);
    for sample in &samples {
        assert_eq!(sample.residency_busy_ticks + sample.residency_idle_ticks, sample.residency_total_ticks);
        assert_eq!(sample.residency_idle_ticks, 75);
    }
}

#[test]
fn duplicate_states_and_foreign_channels_fail_closed() {
    let mut duplicate = records();
    let copy = duplicate_row(&duplicate[2]);
    duplicate.push(copy);
    assert!(matches!(
        decode(&m4_pro_26a5388g(), &duplicate),
        Err(GpuError::DuplicateState { sequence: 7, index: 2 })
    ));

    let mut foreign = records();
    foreign[0].channel = "GPU 0".into();
    assert!(matches!(
        decode(&m4_pro_26a5388g(), &foreign),
        Err(GpuError::UnexpectedChannel { sequence: 7 })
    ));
}

fn duplicate_row(record: &ResidencyRecord) -> ResidencyRecord {
    ResidencyRecord {
        sequence: record.sequence,
        monotonic_ms: record.monotonic_ms,
        sample_duration_us: record.sample_duration_us,
        group: record.group.clone(),
        subgroup: record.subgroup.clone(),
        channel: record.channel.clone(),
        unit: record.unit.clone(),
        state_index: record.state_index,
        state_name: record.state_name.clone(),
        residency_ticks: record.residency_ticks,
        total_ticks: record.total_ticks,
    }
}

#[test]
fn unsupported_machines_name_their_identity() {
    assert!(current_catalog("Mac16,8".into(), "26A5388g".into()).is_ok());
    match current_catalog("Mac15,3".into(), "24A335".into()) {
        Err(GpuError::UnsupportedLayout { machine_model, os_build }) => {
            assert_eq!(machine_model, "Mac15,3");
            assert_eq!(os_build, "24A335");
        }
        other => panic!("unexpected {other:?}"),
    }
}

#[test]
fn system_identities_drop_a_trailing_nul_and_must_be_utf8() {
    assert_eq!(system_identity_text("hw.model", 0, 0, b"Mac16,8\0".to_vec()).ok(), Some("Mac16,8".to_string()));
    assert_eq!(system_identity_text("kern.osversion", 0, 0, b"26A5388g".to_vec()).ok(), Some("26A5388g".to_string()));
    assert!(matches!(
        system_identity_text("hw.model", 0, 0, vec![0xff, 0]),
        Err(GpuError::InvalidSystemIdentity { name }) if name == "hw.model"
    ));
    assert!(matches!(
        system_identity_text("hw.model", -1, 2, Vec::new()),
        Err(GpuError::SystemIdentity { name, errno: 2 }) if name == "hw.model"
    ));
}

#[test]
fn gpu_regression_gate_bounds_latency_and_allocations() {
    assert!(regression_gate_passed(2_500, 5_000, 0));
    assert!(!regression_gate_passed(2_501, 100, 0));
    assert!(!regression_gate_passed(100, 5_001, 0));
    assert!(!regression_gate_passed(100, 100, 1));
}
