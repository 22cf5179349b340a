use rasitop::activity::{summarize_activity_xml, ActivityError};
use rasitop::xml::parse_document;

const XML: &str = r#"<?xml version="1.0"?>
<trace-query-result><node><schema name="activity-monitor-process-live">
<col><mnemonic>process</mnemonic></col>
<col><mnemonic>start</mnemonic></col>
<col><mnemonic>pid</mnemonic></col>
<col><mnemonic>cpu-total</mnemonic></col>
<col><mnemonic>thread-count</mnemonic></col>
<col><mnemonic>mach-port-count</mnemonic></col>
<col><mnemonic>memory-physical-footprint</mnemonic></col>
<col><mnemonic>memory-real-private</mnemonic></col>
<col><mnemonic>idle-wakeups</mnemonic></col>
<col><mnemonic>disk-bytes-written</mnemonic></col>
<col><mnemonic>disk-bytes-read</mnemonic></col>
</schema>
<row><process id="1" fmt="rasitop &amp; helper (42)"/><start-time>0</start-time><pid id="2">42</pid><duration-on-core>50000000</duration-on-core><event-count id="3">4</event-count><event-count id="4">100</event-count><size-in-bytes>1000</size-in-bytes><size-in-bytes>500</size-in-bytes><event-count>10</event-count><disk-size-in-bytes>100</disk-size-in-bytes><disk-size-in-bytes>200</disk-size-in-bytes></row>
<row><process ref="1"/><start-time>1000000000</start-time><pid ref="2"/><duration-on-core>100000000</duration-on-core><event-count>6</event-count><event-count>102</event-count><size-in-bytes>1100</size-in-bytes><size-in-bytes>550</size-in-bytes><event-count>12</event-count><disk-size-in-bytes>125</disk-size-in-bytes><disk-size-in-bytes>220</disk-size-in-bytes></row>
<row><process ref="1"/><start-time>2000000000</start-time><pid ref="2"/><duration-on-core>150000000</duration-on-core><event-count>5</event-count><event-count>99</event-count><size-in-bytes>900</size-in-bytes><size-in-bytes>600</size-in-bytes><event-count>14</event-count><disk-size-in-bytes>150</disk-size-in-bytes><disk-size-in-bytes>260</disk-size-in-bytes></row>
</node></trace-query-result>"#;

fn seconds(ns: u64) -> f64 {
    ns as f64 / 1_000_000_000.0
}

#[test]
fn resolves_refs_and_calculates_steady_state_deltas() {
    let summary = summarize_activity_xml(XML).unwrap();
    let duration_seconds = seconds(summary.duration_ns);

    assert_eq!(summary.process_name, "rasitop & helper");
    assert_eq!(summary.pid, 42);
    assert_eq!(summary.samples, 3);
    assert_eq!(summary.duration_ns, 2_000_000_000);
    assert_eq!(summary.cpu_delta_ns, 100_000_000);
    assert_eq!(summary.cpu_delta_ns as f64 / summary.duration_ns as f64 * 100.0, 5.0);
    assert_eq!(summary.idle_wakeups.delta, 4);
    assert_eq!(summary.idle_wakeups.delta as f64 / duration_seconds, 2.0);
    assert_eq!(summary.physical_footprint_bytes.delta, -100);
    assert_eq!(summary.physical_footprint_bytes.max, 1100);
    assert_eq!(summary.private_bytes.delta, 100);
    assert_eq!(summary.threads.min, 4);
    assert_eq!(summary.threads.max, 6);
    assert_eq!(summary.ports.delta, -1);
    assert_eq!(summary.bytes_written.delta, 50);
    assert_eq!(summary.bytes_read.delta as f64 / duration_seconds, 30.0);
}

#[test]
fn rejects_decreasing_counters() {
    let xml = XML.replace(
        "<duration-on-core>150000000</duration-on-core>",
        "<duration-on-core>40000000</duration-on-core>",
    );
    let error = summarize_activity_xml(&xml).unwrap_err();
    assert!(error.message().contains("CPU time counter decreased"));
}

#[test]
fn rejects_unknown_refs() {
    let xml = XML.replace("<pid ref=\"2\"/>", "<pid ref=\"missing\"/>");
    let error = summarize_activity_xml(&xml).unwrap_err();
    assert!(error.message().contains("unknown id missing"));
}

#[test]
fn exports_without_the_schema_are_refused() {
    let xml = XML.replace("activity-monitor-process-live", "other-schema");
    assert!(matches!(summarize_activity_xml(&xml), Err(ActivityError::NoActivityNode)));
}

#[test]
fn malformed_documents_are_refused() {
    assert!(matches!(summarize_activity_xml("<a><b></a>"), Err(ActivityError::Xml(_))));
    assert!(matches!(summarize_activity_xml(""), Err(ActivityError::Xml(_))));
    let error = summarize_activity_xml("<a/><b/>").unwrap_err();
    assert!(error.message().starts_with("parse Activity Monitor XML"));
}

#[test]
fn duplicate_ids_and_columns_are_refused() {
    let xml = XML.replace("<event-count id=\"4\">", "<event-count id=\"3\">");
    match summarize_activity_xml(&xml) {
        Err(ActivityError::DuplicateId { id }) => assert_eq!(id, "3"),
        other => panic!("unexpected {other:?}"),
    }
    let xml = XML.replace("<mnemonic>pid</mnemonic>", "<mnemonic>start</mnemonic>");
    match summarize_activity_xml(&xml) {
        Err(ActivityError::DuplicateColumn { mnemonic }) => assert_eq!(mnemonic, "start"),
        other => panic!("unexpected {other:?}"),
    }
}

#[test]
fn reference_cycles_and_sentinels_are_refused() {
    let xml = XML.replace("<pid id=\"2\">42</pid>", "<pid id=\"2\" ref=\"2\">42</pid>");
    match summarize_activity_xml(&xml) {
        Err(ActivityError::ReferenceCycle { mnemonic, id }) => {
            assert_eq!(mnemonic, "pid");
            assert_eq!(id, "2");
        }
        other => panic!("unexpected {other:?}"),
    }
    let xml = XML.replace("<start-time>0</start-time>", "<sentinel/>");
    let error = summarize_activity_xml(&xml).unwrap_err();
    assert_eq!(error.message(), "Activity Monitor value for start is unavailable");
}

#[test]
fn too_few_samples_and_unordered_times_are_refused() {
    let first_row_end = XML.find("</row>").unwrap() + "</row>".len();
    let rows_end = XML.rfind("</node>").unwrap();
    let one_row = format!("{}{}", &XML[..first_row_end], &XML[rows_end..]);
    let error = summarize_activity_xml(&one_row).unwrap_err();
    assert_eq!(error.message(), "Activity Monitor export needs at least two samples, found 1");
    let xml = XML.replace("<start-time>2000000000</start-time>", "<start-time>5</start-time>");
    assert!(matches!(summarize_activity_xml(&xml), Err(ActivityError::TimesNotIncreasing)));
}

#[test]
fn text_runs_keep_references_and_drop_surrounding_space() {
    let (document, root) = parse_document("<r>\n  a &amp; b <![CDATA[ c ]]> d\n  <e>  </e>\n</r>").ok().expect("well-formed");
    assert_eq!(root, 0);
    assert_eq!(document.elements.len(), 2);
    assert_eq!(document.texts[0], "a &amp; b c d");
    assert_eq!(document.texts[1], "");
    assert_eq!(document.elements[1].parent, Some(0));
}

#[test]
fn summary_gauges_span_the_rows() {
    let summary = summarize_activity_xml(XML).unwrap();
    let t = summary.threads;
    assert_eq!((t.start, t.end, t.delta, t.min, t.max), (4, 5, 1, 4, 6));
    let p = summary.ports;
    assert_eq!((p.start, p.end, p.delta, p.min, p.max), (100, 99, -1, 99, 102));
    let f = summary.physical_footprint_bytes;
    assert_eq!((f.start, f.end, f.min, f.max), (1000, 900, 900, 1100));
    let r = summary.private_bytes;
    assert_eq!((r.start, r.end, r.min, r.max), (500, 600, 500, 600));
    assert_eq!((summary.bytes_read.start, summary.bytes_read.end), (200, 260));
    assert_eq!(summary.bytes_read.delta, summary.bytes_read.end - summary.bytes_read.start);
}
