use rasitop::ioreport::{discover, kind_name, records_for_channel, ChannelDescription, IoReportError};

#[test]
fn state_channels_expand_to_stable_indexed_rows() {
    let rows = records_for_channel(
        "GPU Stats".into(),
        "GPU Performance States".into(),
        "GPU 0".into(),
        "ticks".into(),
        2,
        &["IDLE".to_string(), "ACTIVE, HIGH".to_string()],
    );
    assert_eq!(rows.len(), 2);
    assert_eq!(rows[0].state_index, Some(0));
    assert_eq!(rows[1].state_name, "ACTIVE, HIGH");
}

#[test]
fn channel_kinds_are_named_with_unknown_fallback() {
    assert_eq!(kind_name(0), "invalid");
    assert_eq!(kind_name(4), "simple_array");
    assert_eq!(kind_name(99), "unknown:99");
    let rows = records_for_channel("Energy Model".into(), String::new(), "GPU, Energy".into(), "mJ".into(), 99, &[]);
    assert_eq!(rows.len(), 1);
    assert_eq!(rows[0].kind, "unknown:99");
    assert_eq!(rows[0].state_index, None);
    assert_eq!(rows[0].state_name, "");
}

fn channel(group: &str, name: &str, format: u8, state_count: i32, states: &[&str]) -> ChannelDescription {
    ChannelDescription {
        group: group.into(),
        subgroup: String::new(),
        channel: name.into(),
        unit: String::new(),
        format,
        state_count,
        states: states.iter().map(|s| s.to_string()).collect(),
    }
}

#[test]
fn inventory_is_sorted_by_every_field() {
    let rows = discover(&[
        channel("Zeta", "b", 1, 0, &[]),
        channel("Alpha", "x", 2, 2, &["OFF", "ON"]),
        channel("Alpha", "a", 1, 0, &[]),
    ])
    .expect("inventory");
    let keys: Vec<(String, String, Option<u32>)> = rows
        .iter()
        .map(|r| (r.group.clone(), r.channel.clone(), r.state_index))
        .collect();
    assert_eq!(
        keys,
        vec![
            ("Alpha".to_string(), "a".to_string(), None),
            ("Alpha".to_string(), "x".to_string(), Some(0)),
            ("Alpha".to_string(), "x".to_string(), Some(1)),
            ("Zeta".to_string(), "b".to_string(), None),
        ]
    );
}

#[test]
fn negative_state_counts_fail_the_inventory() {
    match discover(&[channel("G", "ok", 1, 0, &[]), channel("G", "bad", 2, -1, &[])]) {
        Err(IoReportError::InvalidStateCount { channel, count }) => {
            assert_eq!(channel, "bad");
            assert_eq!(count, -1);
        }
        other => panic!("unexpected {other:?}"),
    }
}
