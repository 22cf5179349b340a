use rasitop::smc::catalog::{catalog_for_brand, fan_keys, ChipFamily, SensorRole};
use rasitop::smc::discovery::{diagnose_key, hex};
use rasitop::smc::error::SmcError;
use rasitop::smc::protocol::{
    brand_length, brand_text, call_outcome, SmcConnection, SmcKeyData, SmcKeyInfo, SmcReply,
    SMC_KEY_DATA_SIZE,
};
use rasitop::smc::value::{Decoder, ResolvedKey, SmcKey, SmcValue};
use rasitop::smc::{
    catalog_for_cpu, sample_error_flags, SensorReader, SmcProvider, CAPABILITY_CPU_TEMPERATURE,
    CAPABILITY_SYSTEM_POWER, ERROR_SMC_ACCESS, ERROR_SMC_DATA, ERROR_SMC_IO,
};

fn info(data_type: [u8; 4], data_size: u32) -> SmcKeyInfo {
    SmcKeyInfo { data_size, data_type: u32::from_be_bytes(data_type), data_attributes: 0 }
}

fn as_f64(value: SmcValue) -> f64 {
    match value {
        SmcValue::Float { bits } => f32::from_bits(bits) as f64,
        SmcValue::Scaled { numerator, denominator } => numerator as f64 / denominator as f64,
    }
}

#[test]
fn selects_bounded_stats_catalog_for_m4() {
    let catalog = catalog_for_brand("Apple M4 Pro").expect("M4 catalog");
    assert_eq!(catalog.cpu_temperatures, ChipFamily::M4.temperatures());
    assert_eq!(catalog.cpu_temperatures[0].name(), "Te05");
    assert_eq!(catalog.cpu_temperatures.len(), 12);
    assert_eq!(ChipFamily::from_brand("Unknown"), None);
}

#[test]
fn raw_bytes_are_stable_lowercase_hex() {
    assert_eq!(hex(&[0, 0xab, 0xff]), "00abff");
}

#[test]
fn errors_map_to_broad_runtime_categories() {
    assert_eq!(SmcError::Open { status: 1 }.category_flag(), ERROR_SMC_ACCESS);
    assert_eq!(SmcError::KeyNotFound { key: "PSTR".into() }.category_flag(), ERROR_SMC_IO);
    assert_eq!(SmcError::NonFiniteValue.category_flag(), ERROR_SMC_DATA);
}

#[test]
fn decodes_every_supported_stats_value_type() {
    let fixtures: &[([u8; 4], &[u8], f64)] = &[
        (*b"flt ", &42.5_f32.to_le_bytes(), 42.5),
        (*b"sp78", &[0x2a, 0x80], 42.5),
        (*b"sp78", &[0xff, 0x80], -0.5),
        (*b"fpe2", &[0x00, 0xaa], 42.5),
        (*b"ui8 ", &[42], 42.0),
        (*b"ui16", &[0x01, 0x02], 258.0),
        (*b"ui32", &[0x01, 0x02, 0x03, 0x04], 16_909_060.0),
    ];

    for &(data_type, bytes, expected) in fixtures {
        let decoder = Decoder::from_info(info(data_type, bytes.len() as u32))
            .expect("supported decoder fixture");
        assert_eq!(as_f64(decoder.decode(bytes).expect("decode fixture")), expected);
    }
}

#[test]
fn rejects_wrong_sizes_unknown_types_and_non_finite_floats() {
    assert!(Decoder::from_info(info(*b"flt ", 2)).is_err());
    assert!(matches!(
        Decoder::from_info(info(*b"flag", 1)),
        Err(SmcError::UnsupportedDataType { data_type }) if data_type == "flag"
    ));
    let decoder = Decoder::from_info(info(*b"flt ", 4)).expect("float decoder");
    assert!(matches!(decoder.decode(&f32::NAN.to_le_bytes()), Err(SmcError::NonFiniteValue)));
    assert!(matches!(decoder.decode(&f32::INFINITY.to_le_bytes()), Err(SmcError::NonFiniteValue)));
    assert!(matches!(decoder.decode(&[0; 3]), Err(SmcError::ValueSize { expected: 4, actual: 3 })));
}

#[test]
fn key_names_round_trip_through_their_code() {
    let key = SmcKey::from_bytes(*b"PSTR");
    assert_eq!(key.raw(), u32::from_be_bytes(*b"PSTR"));
    assert_eq!(key.name(), "PSTR");
    assert_eq!(SmcKey::from_raw(key.raw()), key);
    assert_eq!(SmcKey::from_chars('F', '0', 'A', 'c'), fan_keys(1)[0]);
    assert_eq!(fan_keys(3)[2].name(), "F2Ac");
}

#[test]
fn resolved_keys_read_the_leading_value_bytes() {
    let resolved = ResolvedKey::resolve(SmcKey::from_bytes(*b"TC0P"), info(*b"ui16", 2)).expect("ui16");
    let mut response = [0u8; 32];
    response[0] = 0x01;
    response[1] = 0x02;
    response[2] = 0xff;
    assert_eq!(as_f64(resolved.read(&response).unwrap()), 258.0);
    assert!(ResolvedKey::resolve(SmcKey::from_bytes(*b"TC0P"), info(*b"ui16", 4)).is_err());
}

#[test]
fn sensor_roles_have_distinct_capabilities() {
    assert_eq!(SensorRole::CpuTemperature.capability(), CAPABILITY_CPU_TEMPERATURE);
    assert_eq!(SensorRole::SystemPower.capability(), CAPABILITY_SYSTEM_POWER);
    assert_ne!(SensorRole::FanSpeed.capability(), SensorRole::CpuTemperature.capability());
}

fn reply(status: i32, output_size: usize, result: u8) -> SmcReply {
    let mut output = SmcKeyData::read_index_request(0);
    output.result = result;
    SmcReply { status, output_size, output }
}

#[test]
fn user_client_calls_fail_in_protocol_order() {
    let key = SmcKey::from_bytes(*b"PSTR");
    assert!(matches!(call_outcome(3, 0, 80, 0, key), Err(SmcError::Call { status: 3 })));
    assert!(matches!(call_outcome(0, 12, 80, 0, key), Err(SmcError::OutputSize { actual: 12, expected: 80 })));
    match call_outcome(0, 80, 80, 0x84, key) {
        Err(SmcError::KeyNotFound { key }) => assert_eq!(key, "PSTR"),
        other => panic!("unexpected {other:?}"),
    }
    assert!(matches!(call_outcome(0, 80, 80, 7, key), Err(SmcError::SmcResult { result: 7, .. })));
    assert!(call_outcome(0, 80, 80, 0, key).is_ok());
    assert_eq!(SMC_KEY_DATA_SIZE, 80);
}

#[test]
fn connection_steps_fail_in_order() {
    assert!(matches!(SmcConnection::open(false, 0, 0, 0), Err(SmcError::ServiceMatching)));
    assert!(matches!(SmcConnection::open(true, 0, 0, 0), Err(SmcError::ServiceNotFound)));
    assert!(matches!(SmcConnection::open(true, 5, -1, 0), Err(SmcError::Open { status: -1 })));
    assert!(matches!(SmcConnection::open(true, 5, 0, 0), Err(SmcError::NullConnection)));
    let connection = SmcConnection::open(true, 5, 0, 9).expect("open");
    assert_eq!(connection.handle(), 9);

    let mut count = SmcKeyData::read_bytes_request(SmcKey::from_bytes(*b"#KEY"), info(*b"ui32", 4));
    count.bytes[..4].copy_from_slice(&[0, 0, 0x01, 0x02]);
    let ok = SmcReply { status: 0, output_size: 80, output: count };
    assert_eq!(connection.key_count(info(*b"ui32", 4), ok).unwrap(), 258);
    assert!(matches!(
        connection.key_count(info(*b"ui32", 2), ok),
        Err(SmcError::KeyCountSize { actual: 2 })
    ));
    assert!(matches!(connection.key_by_index(3, reply(1, 80, 0)), Err(SmcError::Call { status: 1 })));

    let mut too_big = SmcKeyData::read_key_info_request(SmcKey::from_bytes(*b"TEST"));
    too_big.key_info = info(*b"ui8 ", 33);
    match connection.read_key_info(SmcKey::from_bytes(*b"TEST"), SmcReply { status: 0, output_size: 80, output: too_big }) {
        Err(SmcError::KeyDataSize { key, actual: 33, maximum: 32 }) => assert_eq!(key, "TEST"),
        other => panic!("unexpected {other:?}"),
    }
}

#[test]
fn cpu_brand_needs_both_reads_and_utf8() {
    assert!(matches!(brand_length(0, 1), Err(SmcError::EmptyCpuBrand)));
    assert_eq!(brand_length(0, 14).unwrap(), 14);
    match brand_length(2, 14) {
        Err(SmcError::CpuBrandSysctl { operation, status: 2 }) => assert_eq!(operation, "query CPU brand length"),
        other => panic!("unexpected {other:?}"),
    }
    let mut bytes = b"Apple M4 Pro\0".to_vec();
    bytes.extend_from_slice(&[0, 0]);
    assert_eq!(brand_text(0, bytes, 13).unwrap(), "Apple M4 Pro");
    assert!(matches!(brand_text(0, vec![0xff, 0xfe], 2), Err(SmcError::CpuBrandUtf8)));
    assert!(matches!(catalog_for_cpu("Intel Core".into()), Err(SmcError::UnsupportedCpu { .. })));
    assert!(catalog_for_cpu("Apple M2 Max".into()).is_ok());
}

#[test]
fn providers_need_at_least_one_resolved_role() {
    let connection = || SmcConnection::open(true, 1, 0, 1).unwrap();
    let empty = |role| SensorReader::new(role, Vec::new());
    assert!(matches!(
        SmcProvider::new(
            connection(),
            empty(SensorRole::CpuTemperature),
            empty(SensorRole::FanSpeed),
            empty(SensorRole::SystemPower)
        ),
        Err(SmcError::NoSensors)
    ));
    let power = ResolvedKey::resolve(SmcKey::from_bytes(*b"PSTR"), info(*b"flt ", 4)).unwrap();
    let provider = SmcProvider::new(
        connection(),
        empty(SensorRole::CpuTemperature),
        empty(SensorRole::FanSpeed),
        SensorReader::new(SensorRole::SystemPower, vec![power]),
    )
    .expect("power resolved");
    assert_eq!(provider.capability_flags(), CAPABILITY_SYSTEM_POWER);
    assert_eq!(sample_error_flags(true, false, true), 5);
    assert_eq!(sample_error_flags(false, false, false), 0);
}

#[test]
fn resolved_keys_with_mismatched_sizes_report_the_value_size() {
    let key = SmcKey::from_bytes(*b"TC0P");
    let wrong = ResolvedKey { key, info: info(*b"ui16", 4), decoder: Decoder::Unsigned16 };
    assert!(matches!(
        wrong.read(&[0u8; 32]),
        Err(SmcError::ValueSize { expected: 2, actual: 4 })
    ));
    let resolved = ResolvedKey::resolve(key, info(*b"ui16", 2)).expect("ui16");
    assert!(matches!(
        resolved.read(&[7u8]),
        Err(SmcError::ValueSize { expected: 2, actual: 2 })
    ));
}

#[test]
fn protocol_layout_matches_apple_smc_user_client() {
    assert_eq!(std::mem::size_of::<SmcKeyInfo>(), 12);
    assert_eq!(SMC_KEY_DATA_SIZE, 80);
}

#[test]
fn key_diagnoses_keep_the_first_failure_and_what_was_read() {
    let unread = diagnose_key(3, Err(SmcError::NullConnection), None, None);
    assert_eq!((unread.index, unread.key.as_str(), unread.data_size), (3, "", 0));
    assert!(matches!(unread.error, Some(SmcError::NullConnection)));

    let key = SmcKey::from_bytes(*b"TC0P");
    let no_info = diagnose_key(4, Ok(key), Some(Err(SmcError::Call { status: 7 })), None);
    assert_eq!((no_info.key.as_str(), no_info.data_type.as_str()), ("TC0P", ""));
    assert!(matches!(no_info.error, Some(SmcError::Call { status: 7 })));

    let mut bytes = [0u8; 32];
    bytes[0] = 0x01;
    bytes[1] = 0x02;
    let read = diagnose_key(5, Ok(key), Some(Ok(info(*b"ui16", 2))), Some(Ok(bytes)));
    assert_eq!((read.data_type.as_str(), read.data_size, read.raw_hex.as_str()), ("ui16", 2, "0102"));
    assert_eq!(as_f64(read.value.unwrap()), 258.0);
    assert!(read.error.is_none());

    let flag = diagnose_key(6, Ok(key), Some(Ok(info(*b"flag", 1))), Some(Ok(bytes)));
    assert_eq!((flag.data_type.as_str(), flag.raw_hex.as_str()), ("flag", "01"));
    assert!(flag.value.is_none());
    assert!(matches!(flag.error, Some(SmcError::UnsupportedDataType { .. })));
}
