//! Validation of an exact, evidence-backed GPU residency layout and its
//! decoding into whole-device busy residency. Raw rows are grouped by sample
//! sequence number in a `BTreeMap`, and samples are decoded in ascending
//! sequence order.
use vstd::prelude::*;
use vstd::string::StringExecFns;

use std::collections::BTreeMap;

use crate::ioreport::IoReportError;
use crate::text::utf8_text;

verus! {

/// Version of the decoded GPU diagnostics schema.
pub const GPU_SCHEMA_VERSION: u32 = 1;

/// One machine model and OS build whose GPU residency channel layout was
/// validated: where the channel lives, its unit, its ordered state names and
/// which state means idle.
#[derive(Debug)]
pub struct GpuCatalogEntry {
    pub machine_model: String,
    pub os_build: String,
    pub group: String,
    pub subgroup: String,
    pub channel: String,
    pub unit: String,
    pub states: Vec<String>,
    pub idle_state_index: usize,
}

impl GpuCatalogEntry {
    /// The state names, in catalog order.
    pub open spec fn state_names(self) -> Seq<Seq<char>> {
        self.states@.map_values(|s: String| s@)
    }

    /// The idle state is one of the catalog states.
    pub open spec fn well_formed(self) -> bool {
        self.idle_state_index < self.states@.len()
    }
}

/// The state names of the validated M4 Pro layout: `OFF`, then `P1`..`P15`.
pub open spec fn m4_pro_state_names() -> Seq<Seq<char>> {
    seq![
        "OFF"@,
        "P1"@,
        "P2"@,
        "P3"@,
        "P4"@,
        "P5"@,
        "P6"@,
        "P7"@,
        "P8"@,
        "P9"@,
        "P10"@,
        "P11"@,
        "P12"@,
        "P13"@,
        "P14"@,
        "P15"@,
    ]
}

/// Whether `entry` is the validated layout of the M4 Pro (`Mac16,8`) on OS
/// build `26A5388g`.
pub open spec fn is_m4_pro_26a5388g(entry: GpuCatalogEntry) -> bool {
    &&& entry.machine_model@ == "Mac16,8"@
    &&& entry.os_build@ == "26A5388g"@
    &&& entry.group@ == "GPU Stats"@
    &&& entry.subgroup@ == "GPU Performance States"@
    &&& entry.channel@ == "GPUPH"@
    &&& entry.unit@ == "24Mticks"@
    &&& entry.state_names() == m4_pro_state_names()
    &&& entry.idle_state_index == 0
}

/// The validated layout of the M4 Pro on OS build `26A5388g`.
pub fn m4_pro_26a5388g() -> (entry: GpuCatalogEntry)
    ensures
        is_m4_pro_26a5388g(entry),
        entry.well_formed(),
{
    let mut states: Vec<String> = Vec::new();
    states.push(String::from_str("OFF"));
    states.push(String::from_str("P1"));
    states.push(String::from_str("P2"));
    states.push(String::from_str("P3"));
    states.push(String::from_str("P4"));
    states.push(String::from_str("P5"));
    states.push(String::from_str("P6"));
    states.push(String::from_str("P7"));
    states.push(String::from_str("P8"));
    states.push(String::from_str("P9"));
    states.push(String::from_str("P10"));
    states.push(String::from_str("P11"));
    states.push(String::from_str("P12"));
    states.push(String::from_str("P13"));
    states.push(String::from_str("P14"));
    states.push(String::from_str("P15"));
    let entry = GpuCatalogEntry {
        machine_model: String::from_str("Mac16,8"),
        os_build: String::from_str("26A5388g"),
        group: String::from_str("GPU Stats"),
        subgroup: String::from_str("GPU Performance States"),
        channel: String::from_str("GPUPH"),
        unit: String::from_str("24Mticks"),
        states,
        idle_state_index: 0,
    };
    assert(entry.state_names() =~= m4_pro_state_names());
    entry
}

/// Whether two strings hold the same characters.
fn same_text(a: &str, b: &str) -> (same: bool)
    ensures
        same == (a@ == b@),
{
    String::from_str(a) == String::from_str(b)
}

/// The catalog entry for exactly this machine model and OS build, if one was
/// validated.
pub fn catalog_for(machine_model: &str, os_build: &str) -> (entry: Option<GpuCatalogEntry>)
    ensures
        entry is Some <==> (machine_model@ == "Mac16,8"@ && os_build@ == "26A5388g"@),
        entry matches Some(e) ==> is_m4_pro_26a5388g(e) && e.well_formed(),
{
    if same_text(machine_model, "Mac16,8") && same_text(os_build, "26A5388g") {
        Some(m4_pro_26a5388g())
    } else {
        None
    }
}

/// A failure to identify, read or validate GPU residency telemetry.
#[derive(Debug)]
pub enum GpuError {
    UnsupportedLayout { machine_model: String, os_build: String },
    SystemIdentity { name: String, errno: i32 },
    InvalidSystemIdentity { name: String },
    IoReport(IoReportError),
    UnexpectedChannel { sequence: u64 },
    StateIndexOutOfRange { sequence: u64, index: u32 },
    StateNameMismatch { sequence: u64, index: u32, expected: String, actual: String },
    DuplicateState { sequence: u64, index: u32 },
    MissingState { sequence: u64 },
    InvalidTotal { sequence: u64 },
}

/// A system identity as `sysctlbyname` fills its buffer: the bytes without
/// one trailing NUL.
pub open spec fn identity_bytes(bytes: Seq<u8>) -> Seq<u8> {
    if bytes.len() > 0 && bytes.last() == 0 {
        bytes.drop_last()
    } else {
        bytes
    }
}

/// The system identity `name` (`hw.model`, `kern.osversion`) from a
/// `sysctlbyname` read: a failed read (nonzero `status`) gives its `errno`,
/// and the text must be UTF-8 once a trailing NUL is dropped.
pub fn system_identity_text(name: &str, status: i32, errno: i32, bytes: Vec<u8>) -> (identity: Result<
    String,
    GpuError,
>)
    ensures
        status != 0 ==> (identity matches Err(GpuError::SystemIdentity { name: n, errno: e }) && n@
            == name@ && e == errno),
        status == 0 && vstd::utf8::valid_utf8(identity_bytes(bytes@)) ==> (identity matches Ok(t)
            && t@ == vstd::utf8::decode_utf8(identity_bytes(bytes@))),
        status == 0 && !vstd::utf8::valid_utf8(identity_bytes(bytes@)) ==> (identity matches Err(
            GpuError::InvalidSystemIdentity { name: n },
        ) && n@ == name@),
{
    if status != 0 {
        return Err(GpuError::SystemIdentity { name: String::from_str(name), errno });
    }
    let mut kept = bytes;
    let n = kept.len();
    if n > 0 && kept[n - 1] == 0 {
        kept.pop();
    }
    proof {
        assert(kept@ =~= identity_bytes(bytes@));
    }
    match utf8_text(kept) {
        Some(text) => Ok(text),
        None => Err(GpuError::InvalidSystemIdentity { name: String::from_str(name) }),
    }
}

/// The largest 95th-percentile warm sample time, in microseconds, that the
/// GPU provider's performance gate accepts.
pub const GPU_P95_US_MAX: u64 = 2_500;

/// Slowest warm sample allowed by the performance gate, in microseconds.
pub const GPU_SINGLE_SAMPLE_US_MAX: u64 = 5_000;

/// The most heap allocations a warm sample may make.
pub const GPU_ALLOCATIONS_MAX: usize = 0;

/// Whether a measurement of the GPU provider passes its performance gate:
/// the 95th percentile and the slowest warm sample within their limits, and
/// no warm sample allocating.
pub fn regression_gate_passed(p95_us: u64, max_us: u64, allocations_max: usize) -> (passed: bool)
    ensures
        passed == (p95_us <= GPU_P95_US_MAX && max_us <= GPU_SINGLE_SAMPLE_US_MAX && allocations_max
            == GPU_ALLOCATIONS_MAX),
{
    p95_us <= GPU_P95_US_MAX && max_us <= GPU_SINGLE_SAMPLE_US_MAX && allocations_max == GPU_ALLOCATIONS_MAX
}

/// The catalog entry for the machine identified by `machine_model` and
/// `os_build` (as read from the running system), or `UnsupportedLayout`.
pub fn current_catalog(machine_model: String, os_build: String) -> (entry: Result<
    GpuCatalogEntry,
    GpuError,
>)
    ensures
        match entry {
            Ok(e) => machine_model@ == "Mac16,8"@ && os_build@ == "26A5388g"@
                && is_m4_pro_26a5388g(e) && e.well_formed(),
            Err(GpuError::UnsupportedLayout { machine_model: m, os_build: b }) => !(
            machine_model@ == "Mac16,8"@ && os_build@ == "26A5388g"@) && m@ == machine_model@
                && b@ == os_build@,
            Err(_) => false,
        },
{
    match catalog_for(machine_model.as_str(), os_build.as_str()) {
        Some(entry) => Ok(entry),
        None => Err(GpuError::UnsupportedLayout { machine_model, os_build }),
    }
}

/// One row of a raw residency capture: the residency of one state of one
/// channel in one sample.
#[derive(Debug)]
pub struct ResidencyRecord {
    pub sequence: u64,
    pub monotonic_ms: u64,
    pub sample_duration_us: u64,
    pub group: String,
    pub subgroup: String,
    pub channel: String,
    pub unit: String,
    pub state_index: u32,
    pub state_name: String,
    pub residency_ticks: u64,
    pub total_ticks: u64,
}

/// Whole-device residency of one sample. The busy ratio is
/// `residency_busy_ticks / residency_total_ticks`.
#[derive(Clone, Copy, Debug, PartialEq, Eq, Structural)]
pub struct GpuDiagnosticSample {
    pub schema_version: u32,
    pub sequence: u64,
    pub monotonic_ms: u64,
    pub sample_duration_us: u64,
    pub residency_total_ticks: u64,
    pub residency_idle_ticks: u64,
    pub residency_busy_ticks: u64,
}

/// Whether `record` belongs to the catalog's channel, with its unit.
pub open spec fn channel_matches(catalog: GpuCatalogEntry, record: ResidencyRecord) -> bool {
    &&& record.group@ == catalog.group@
    &&& record.subgroup@ == catalog.subgroup@
    &&& record.channel@ == catalog.channel@
    &&& record.unit@ == catalog.unit@
}

/// Residency seen so far for each catalog state, and the total declared by
/// the first row.
pub type Tally = (Seq<Option<u64>>, Option<u64>);

/// Folds one row of sample `sequence` into the tally, or names the first
/// problem with it.
pub open spec fn tally_row(
    catalog: GpuCatalogEntry,
    sequence: u64,
    record: ResidencyRecord,
    tally: Tally,
) -> Result<Tally, GpuError> {
    let index = record.state_index as int;
    if !channel_matches(catalog, record) {
        Err(GpuError::UnexpectedChannel { sequence })
    } else if index >= catalog.states@.len() {
        Err(GpuError::StateIndexOutOfRange { sequence, index: record.state_index })
    } else if record.state_name@ != catalog.states@[index]@ {
        Err(
            GpuError::StateNameMismatch {
                sequence,
                index: record.state_index,
                expected: catalog.states@[index],
                actual: record.state_name,
            },
        )
    } else if tally.0[index] is Some {
        Err(GpuError::DuplicateState { sequence, index: record.state_index })
    } else if tally.1 matches Some(total) && total != record.total_ticks {
        Err(GpuError::InvalidTotal { sequence })
    } else {
        Ok((tally.0.update(index, Some(record.residency_ticks)), Some(record.total_ticks)))
    }
}

/// The tally after the first `n` rows, starting with no state seen.
pub open spec fn tally_rows(
    catalog: GpuCatalogEntry,
    sequence: u64,
    records: Seq<ResidencyRecord>,
    n: nat,
) -> Result<Tally, GpuError>
    decreases n,
{
    if n == 0 {
        Ok((Seq::new(catalog.states@.len(), |i: int| None::<u64>), None))
    } else {
        match tally_rows(catalog, sequence, records, (n - 1) as nat) {
            Err(e) => Err(e),
            Ok(tally) => tally_row(catalog, sequence, records[n - 1], tally),
        }
    }
}

/// The sum of the residencies seen, counting a missing one as zero.
pub open spec fn tick_sum(ticks: Seq<Option<u64>>) -> int
    decreases ticks.len(),
{
    if ticks.len() == 0 {
        0
    } else {
        tick_sum(ticks.drop_last()) + match ticks.last() {
            Some(t) => t as int,
            None => 0,
        }
    }
}

/// The decoded sample for rows `records` of sample `sequence`: every catalog
/// state must appear exactly once, all rows must agree on the total, and the
/// residencies must add up to that total, which must not be zero. Busy
/// residency is the total minus the idle state's residency.
pub open spec fn decoded_sequence(
    catalog: GpuCatalogEntry,
    sequence: u64,
    records: Seq<ResidencyRecord>,
) -> Result<GpuDiagnosticSample, GpuError> {
    match tally_rows(catalog, sequence, records, records.len()) {
        Err(e) => Err(e),
        Ok((ticks, declared)) => {
            if exists|i: int| 0 <= i < ticks.len() && ticks[i] is None {
                Err(GpuError::MissingState { sequence })
            } else if tick_sum(ticks) > u64::MAX || declared != Some(tick_sum(ticks) as u64)
                || tick_sum(ticks) == 0 {
                Err(GpuError::InvalidTotal { sequence })
            } else if records.len() == 0 {
                Err(GpuError::MissingState { sequence })
            } else {
                let total = tick_sum(ticks) as u64;
                let idle = ticks[catalog.idle_state_index as int]->0;
                Ok(
                    GpuDiagnosticSample {
                        schema_version: GPU_SCHEMA_VERSION,
                        sequence,
                        monotonic_ms: records[0].monotonic_ms,
                        sample_duration_us: records[0].sample_duration_us,
                        residency_total_ticks: total,
                        residency_idle_ticks: idle,
                        residency_busy_ticks: (total - idle) as u64,
                    },
                )
            }
        },
    }
}

/// The rows behind a sequence of row references.
pub open spec fn rows(records: Seq<&ResidencyRecord>) -> Seq<ResidencyRecord> {
    records.map_values(|r: &ResidencyRecord| *r)
}

proof fn lemma_tick_sum_bounds(ticks: Seq<Option<u64>>, i: int)
    requires
        0 <= i < ticks.len(),
        ticks[i] is Some,
    ensures
        tick_sum(ticks) >= ticks[i]->0,
    decreases ticks.len(),
{
    lemma_tick_sum_nonneg(ticks.drop_last());
    if i < ticks.len() - 1 {
        lemma_tick_sum_bounds(ticks.drop_last(), i);
    }
}

proof fn lemma_tick_sum_nonneg(ticks: Seq<Option<u64>>)
    ensures
        tick_sum(ticks) >= 0,
    decreases ticks.len(),
{
    if ticks.len() > 0 {
        lemma_tick_sum_nonneg(ticks.drop_last());
    }
}

/// Once a row is rejected, later rows do not change the outcome.
proof fn lemma_tally_stops(
    catalog: GpuCatalogEntry,
    sequence: u64,
    records: Seq<ResidencyRecord>,
    k: nat,
    m: nat,
)
    requires
        k <= m,
        tally_rows(catalog, sequence, records, k) is Err,
    ensures
        tally_rows(catalog, sequence, records, m) == tally_rows(catalog, sequence, records, k),
    decreases m,
{
    if k < m {
        lemma_tally_stops(catalog, sequence, records, k, (m - 1) as nat);
    }
}

proof fn lemma_tick_sum_prefix(ticks: Seq<Option<u64>>, k: int)
    requires
        0 <= k <= ticks.len(),
    ensures
        tick_sum(ticks.subrange(0, k)) <= tick_sum(ticks),
    decreases ticks.len(),
{
    if k < ticks.len() {
        lemma_tick_sum_prefix(ticks.drop_last(), k);
        assert(ticks.drop_last().subrange(0, k) =~= ticks.subrange(0, k));
    } else {
        assert(ticks.subrange(0, k) =~= ticks);
    }
}

fn same_string(a: &String, b: &String) -> (same: bool)
    ensures
        same == (a@ == b@),
{
    *a == *b
}

/// Validates and decodes the rows of one sample against the catalog layout.
pub fn decode_sequence(catalog: &GpuCatalogEntry, sequence: u64, records: &[&ResidencyRecord]) -> (sample: Result<
    GpuDiagnosticSample,
    GpuError,
>)
    requires
        catalog.well_formed(),
    ensures
        sample == decoded_sequence(*catalog, sequence, rows(records@)),
{
    let ghost rs = rows(records@);
    let state_count = catalog.states.len();
    let mut ticks: Vec<Option<u64>> = Vec::new();
    while ticks.len() < state_count
        invariant
            ticks@.len() <= state_count,
            state_count == catalog.states@.len(),
            forall|i: int| 0 <= i < ticks@.len() ==> ticks@[i] is None,
        decreases state_count - ticks@.len(),
    {
        ticks.push(None);
    }
    assert(ticks@ =~= Seq::new(catalog.states@.len(), |i: int| None::<u64>));
    let mut declared_total: Option<u64> = None;
    let mut n: usize = 0;
    while n < records.len()
        invariant
            n <= records@.len(),
            rs == rows(records@),
            rs.len() == records@.len(),
            state_count == catalog.states@.len(),
            ticks@.len() == state_count,
            tally_rows(*catalog, sequence, rs, n as nat) == Ok::<Tally, GpuError>((ticks@, declared_total)),
        decreases records@.len() - n,
    {
        let record = records[n];
        assert(rs[n as int] == *record);
        proof {
            if tally_rows(*catalog, sequence, rs, (n + 1) as nat) is Err {
                lemma_tally_stops(*catalog, sequence, rs, (n + 1) as nat, rs.len());
            }
        }
        if !same_string(&record.group, &catalog.group) || !same_string(&record.subgroup, &catalog.subgroup)
            || !same_string(&record.channel, &catalog.channel) || !same_string(&record.unit, &catalog.unit) {
            return Err(GpuError::UnexpectedChannel { sequence });
        }
        let index = record.state_index as usize;
        if index >= state_count {
            return Err(GpuError::StateIndexOutOfRange { sequence, index: record.state_index });
        }
        if !same_string(&record.state_name, &catalog.states[index]) {
            return Err(
                GpuError::StateNameMismatch {
                    sequence,
                    index: record.state_index,
                    expected: catalog.states[index].clone(),
                    actual: record.state_name.clone(),
                },
            );
        }
        if ticks[index].is_some() {
            return Err(GpuError::DuplicateState { sequence, index: record.state_index });
        }
        ticks.set(index, Some(record.residency_ticks));
        match declared_total {
            Some(total) => {
                if total != record.total_ticks {
                    return Err(GpuError::InvalidTotal { sequence });
                }
            },
            None => {
                declared_total = Some(record.total_ticks);
            },
        }
        n += 1;
    }
    assert(rs.len() == records@.len());
    let mut index: usize = 0;
    while index < state_count
        invariant
            index <= state_count,
            state_count == ticks@.len(),
            forall|i: int| 0 <= i < index ==> ticks@[i] is Some,
            rs == rows(records@),
            tally_rows(*catalog, sequence, rs, rs.len()) == Ok::<Tally, GpuError>((ticks@, declared_total)),
        decreases state_count - index,
    {
        if ticks[index].is_none() {
            return Err(GpuError::MissingState { sequence });
        }
        index += 1;
    }
    let mut index: usize = 0;
    let mut total: u64 = 0;
    while index < state_count
        invariant
            index <= state_count,
            state_count == ticks@.len(),
            forall|i: int| 0 <= i < ticks@.len() ==> ticks@[i] is Some,
            total == tick_sum(ticks@.subrange(0, index as int)),
            rs == rows(records@),
            tally_rows(*catalog, sequence, rs, rs.len()) == Ok::<Tally, GpuError>((ticks@, declared_total)),
        decreases state_count - index,
    {
        assert(ticks@.subrange(0, index + 1).drop_last() =~= ticks@.subrange(0, index as int));
        let value = match ticks[index] {
            Some(value) => value,
            None => 0,
        };
        match total.checked_add(value) {
            Some(sum) => {
                total = sum;
            },
            None => {
                proof {
                    lemma_tick_sum_prefix(ticks@, index + 1);
                }
                return Err(GpuError::InvalidTotal { sequence });
            },
        }
        index += 1;
    }
    assert(ticks@.subrange(0, state_count as int) =~= ticks@);
    if declared_total != Some(total) || total == 0 {
        return Err(GpuError::InvalidTotal { sequence });
    }
    if records.len() == 0 {
        return Err(GpuError::MissingState { sequence });
    }
    let idle = match ticks[catalog.idle_state_index] {
        Some(value) => value,
        None => 0,
    };
    proof {
        lemma_tick_sum_bounds(ticks@, catalog.idle_state_index as int);
    }
    let first = records[0];
    assert(rs[0] == *first);
    Ok(
        GpuDiagnosticSample {
            schema_version: GPU_SCHEMA_VERSION,
            sequence,
            monotonic_ms: first.monotonic_ms,
            sample_duration_us: first.sample_duration_us,
            residency_total_ticks: total,
            residency_idle_ticks: idle,
            residency_busy_ticks: total - idle,
        },
    )
}

/// The index at which `k` belongs in ascending `keys`: the length of the
/// leading run of keys below `k`.
pub open spec fn key_position(keys: Seq<u64>, k: u64) -> nat
    decreases keys.len(),
{
    if keys.len() == 0 || keys[0] >= k {
        0
    } else {
        1 + key_position(keys.drop_first(), k)
    }
}

/// Ascending `keys` with `k` added, unless already present.
pub open spec fn insert_key(keys: Seq<u64>, k: u64) -> Seq<u64> {
    let p = key_position(keys, k) as int;
    if p < keys.len() && keys[p] == k {
        keys
    } else {
        keys.insert(p, k)
    }
}

/// The distinct sample sequence numbers of `records`, in ascending order.
pub open spec fn sequence_keys(records: Seq<ResidencyRecord>) -> Seq<u64>
    decreases records.len(),
{
    if records.len() == 0 {
        Seq::empty()
    } else {
        insert_key(sequence_keys(records.drop_last()), records.last().sequence)
    }
}

/// The rows of sample `sequence`, in their original order.
pub open spec fn sequence_rows(records: Seq<ResidencyRecord>, sequence: u64) -> Seq<ResidencyRecord> {
    records.filter(|r: ResidencyRecord| r.sequence == sequence)
}

/// The decoded samples for the first `n` keys, or the first error.
pub open spec fn decoded_keys(
    catalog: GpuCatalogEntry,
    records: Seq<ResidencyRecord>,
    keys: Seq<u64>,
    n: nat,
) -> Result<Seq<GpuDiagnosticSample>, GpuError>
    decreases n,
{
    if n == 0 {
        Ok(Seq::empty())
    } else {
        match decoded_keys(catalog, records, keys, (n - 1) as nat) {
            Err(e) => Err(e),
            Ok(samples) => match decoded_sequence(
                catalog,
                keys[n - 1],
                sequence_rows(records, keys[n - 1]),
            ) {
                Err(e) => Err(e),
                Ok(sample) => Ok(samples.push(sample)),
            },
        }
    }
}

/// A raw capture decoded sample by sample, in ascending sequence order; the
/// first sample that fails validation decides the error.
pub open spec fn decoded_capture(catalog: GpuCatalogEntry, records: Seq<ResidencyRecord>) -> Result<
    Seq<GpuDiagnosticSample>,
    GpuError,
> {
    let keys = sequence_keys(records);
    decoded_keys(catalog, records, keys, keys.len())
}

proof fn lemma_filter_step(records: Seq<ResidencyRecord>, sequence: u64, i: int)
    requires
        0 <= i < records.len(),
    ensures
        sequence_rows(records.take(i + 1), sequence) == if records[i].sequence == sequence {
            sequence_rows(records.take(i), sequence).push(records[i])
        } else {
            sequence_rows(records.take(i), sequence)
        },
{
    reveal_with_fuel(Seq::filter, 1);
    assert(records.take(i + 1).drop_last() =~= records.take(i));
}

/// The rows grouped under `k`, in the order they were added (none when `k`
/// has no group).
pub open spec fn group_rows(groups: Map<u64, Vec<&ResidencyRecord>>, k: u64) -> Seq<ResidencyRecord> {
    if groups.contains_key(k) {
        rows(groups[k]@)
    } else {
        Seq::empty()
    }
}

/// Sequence numbers are ordered keys: `u64` obeys the ordering laws the
/// `BTreeMap` specifications rest on.
proof fn lemma_sequence_numbers_are_ordered()
    ensures
        vstd::laws_cmp::obeys_cmp::<u64>(),
        vstd::std_specs::btree::key_obeys_cmp_spec::<u64>(),
{
    broadcast use vstd::laws_cmp::group_laws_cmp, vstd::std_specs::btree::group_btree_axioms;

}

/// Keys that a map's walk gives in increasing order are strictly ascending
/// numbers.
proof fn lemma_increasing_keys(keys: Seq<u64>)
    requires
        vstd::std_specs::btree::increasing_seq(keys),
    ensures
        strictly_ascending(keys),
{
    broadcast use vstd::laws_cmp::group_laws_cmp, vstd::std_specs::btree::group_btree_axioms;

    assert forall|a: int, b: int| 0 <= a < b < keys.len() implies keys[a] < keys[b] by {
        assert(vstd::std_specs::cmp::OrdSpec::cmp_spec(&keys[a], &keys[b]) == core::cmp::Ordering::Less);
    }
}

/// Two strictly ascending sequences with the same elements are equal.
proof fn lemma_ascending_unique(a: Seq<u64>, b: Seq<u64>)
    requires
        strictly_ascending(a),
        strictly_ascending(b),
        forall|x: u64| a.contains(x) <==> b.contains(x),
    ensures
        a == b,
    decreases a.len(),
{
    if a.len() == 0 {
        if b.len() > 0 {
            assert(b.contains(b[0]));
        }
        assert(a =~= b);
    } else {
        assert(a.contains(a[0]));
        assert(b.len() > 0);
        assert(b.contains(b[0]));
        let i = choose|i: int| 0 <= i < a.len() && a[i] == b[0];
        let j = choose|j: int| 0 <= j < b.len() && b[j] == a[0];
        if i > 0 {
            assert(a[0] < a[i]);
        }
        if j > 0 {
            assert(b[0] < b[j]);
        }
        assert(a[0] == b[0]);
        let ra = a.drop_first();
        let rb = b.drop_first();
        assert forall|x: u64| ra.contains(x) <==> rb.contains(x) by {
            if ra.contains(x) {
                let k = choose|k: int| 0 <= k < ra.len() && ra[k] == x;
                assert(a[k + 1] == x && a[0] < a[k + 1]);
                assert(b.contains(x));
                let m = choose|m: int| 0 <= m < b.len() && b[m] == x;
                assert(m != 0);
                assert(rb[m - 1] == x);
            }
            if rb.contains(x) {
                let k = choose|k: int| 0 <= k < rb.len() && rb[k] == x;
                assert(b[k + 1] == x && b[0] < b[k + 1]);
                assert(a.contains(x));
                let m = choose|m: int| 0 <= m < a.len() && a[m] == x;
                assert(m != 0);
                assert(ra[m - 1] == x);
            }
        }
        lemma_ascending_unique(ra, rb);
        assert forall|k: int| 0 <= k < a.len() implies a[k] == b[k] by {
            if k > 0 {
                assert(a[k] == ra[k - 1] && b[k] == rb[k - 1]);
            }
        }
        assert(a =~= b);
    }
}

/// Decodes a raw residency capture sample by sample, in ascending sequence
/// order: the rows are grouped by sequence number in a `BTreeMap`, whose
/// walk visits the groups in ascending order.
pub fn decode(catalog: &GpuCatalogEntry, records: &[ResidencyRecord]) -> (samples: Result<
    Vec<GpuDiagnosticSample>,
    GpuError,
>)
    requires
        catalog.well_formed(),
    ensures
        match samples {
            Ok(v) => decoded_capture(*catalog, records@) == Ok::<
                Seq<GpuDiagnosticSample>,
                GpuError,
            >(v@),
            Err(e) => decoded_capture(*catalog, records@) == Err::<
                Seq<GpuDiagnosticSample>,
                GpuError,
            >(e),
        },
{
    broadcast use vstd::std_specs::btree::group_btree_axioms;

    let mut groups: BTreeMap<u64, Vec<&ResidencyRecord>> = BTreeMap::new();
    let mut i: usize = 0;
    assert forall|k: u64| #[trigger] group_rows(groups@, k) == sequence_rows(records@.take(0), k) by {
        assert(records@.take(0) =~= Seq::<ResidencyRecord>::empty());
        assert(sequence_rows(records@.take(0), k) =~= Seq::<ResidencyRecord>::empty());
    }
    while i < records.len()
        invariant
            i <= records@.len(),
            forall|k: u64|
                groups@.contains_key(k) <==> exists|j: int| 0 <= j < i && #[trigger] records@[j].sequence == k,
            forall|k: u64| #[trigger] group_rows(groups@, k) == sequence_rows(records@.take(i as int), k),
        decreases records@.len() - i,
    {
        proof {
            lemma_sequence_numbers_are_ordered();
        }
        let key = records[i].sequence;
        let ghost before = groups@;
        let mut group = match groups.remove(&key) {
            Some(g) => g,
            None => Vec::new(),
        };
        assert(rows(group@) == group_rows(before, key));
        group.push(&records[i]);
        assert(rows(group@) =~= group_rows(before, key).push(records@[i as int]));
        groups.insert(key, group);
        proof {
            assert forall|k: u64| #[trigger] group_rows(groups@, k) == sequence_rows(records@.take(i + 1), k) by {
                lemma_filter_step(records@, k, i as int);
                assert(group_rows(before, k) == sequence_rows(records@.take(i as int), k));
                if k != key {
                    assert(groups@.contains_key(k) == before.contains_key(k));
                    if before.contains_key(k) {
                        assert(groups@[k] == before[k]);
                    }
                }
            }
            assert forall|k: u64|
                groups@.contains_key(k) <==> exists|j: int| 0 <= j < i + 1 && #[trigger] records@[j].sequence == k by {
                if groups@.contains_key(k) && k != key {
                    assert(before.contains_key(k));
                }
                if k == key {
                    assert(records@[i as int].sequence == k);
                }
            }
        }
        i += 1;
    }
    assert(records@.take(records@.len() as int) =~= records@);
    let ghost keys = sequence_keys(records@);
    let probe = groups.iter();
    let ghost entries = vstd::std_specs::iter::IteratorSpec::remaining(&probe);
    let ghost order = entries.map_values(|e: (&u64, &Vec<&ResidencyRecord>)| *e.0);
    proof {
        lemma_sequence_numbers_are_ordered();
        sequence_keys_are_the_distinct_sequences(records@);
        lemma_increasing_keys(order);
        assert forall|x: u64| order.contains(x) <==> keys.contains(x) by {
            if order.contains(x) {
                let k = choose|k: int| 0 <= k < order.len() && order[k] == x;
                assert(groups@.contains_key(*entries[k].0));
            }
            if keys.contains(x) {
                assert(groups@.contains_key(x));
                assert(entries.contains((&x, &groups@[x])));
                let k = choose|k: int| 0 <= k < entries.len() && entries[k] == (&x, &groups@[x]);
                assert(order[k] == x);
            }
        }
        lemma_ascending_unique(order, keys);
    }
    let mut samples: Vec<GpuDiagnosticSample> = Vec::new();
    for entry in it: groups.iter()
        invariant
            entries == vstd::std_specs::iter::IteratorSpec::remaining(
                &vstd::std_specs::btree::spec_btree_map_iter(&groups),
            ),
            order == entries.map_values(|e: (&u64, &Vec<&ResidencyRecord>)| *e.0),
            order == keys,
            keys == sequence_keys(records@),
            entries.len() == keys.len(),
            forall|k: int|
                0 <= k < entries.len() ==> groups@.contains_key(*entries[k].0) && groups@[*entries[k].0]
                    == *entries[k].1,
            forall|k: u64| #[trigger] group_rows(groups@, k) == sequence_rows(records@, k),
            decoded_keys(*catalog, records@, keys, it.index() as nat) == Ok::<
                Seq<GpuDiagnosticSample>,
                GpuError,
            >(samples@),
            catalog.well_formed(),
    {
        let ghost n = it.index();
        assert(it.seq() =~= entries);
        let (key, group) = entry;
        assert(*key == keys[n]);
        assert(rows(group@) == sequence_rows(records@, keys[n])) by {
            assert(group_rows(groups@, *key) == sequence_rows(records@, *key));
        }
        match decode_sequence(catalog, *key, group.as_slice()) {
            Ok(sample) => {
                samples.push(sample);
            },
            Err(e) => {
                proof {
                    lemma_decoded_keys_stop(*catalog, records@, keys, (n + 1) as nat, keys.len());
                }
                return Err(e);
            },
        }
    }
    Ok(samples)
}

proof fn lemma_decoded_keys_stop(
    catalog: GpuCatalogEntry,
    records: Seq<ResidencyRecord>,
    keys: Seq<u64>,
    k: nat,
    m: nat,
)
    requires
        k <= m,
        decoded_keys(catalog, records, keys, k) is Err,
    ensures
        decoded_keys(catalog, records, keys, m) == decoded_keys(catalog, records, keys, k),
    decreases m,
{
    if k < m {
        lemma_decoded_keys_stop(catalog, records, keys, k, (m - 1) as nat);
    }
}

/// Whether `keys` is strictly ascending.
pub open spec fn strictly_ascending(keys: Seq<u64>) -> bool {
    forall|a: int, b: int| 0 <= a < b < keys.len() ==> keys[a] < keys[b]
}

proof fn lemma_key_position_bounds(keys: Seq<u64>, k: u64)
    requires
        strictly_ascending(keys),
    ensures
        key_position(keys, k) <= keys.len(),
        forall|j: int| 0 <= j < key_position(keys, k) ==> keys[j] < k,
        key_position(keys, k) < keys.len() ==> keys[key_position(keys, k) as int] >= k,
    decreases keys.len(),
{
    if keys.len() > 0 && keys[0] < k {
        let rest = keys.drop_first();
        lemma_key_position_bounds(rest, k);
        assert forall|j: int| 0 <= j < key_position(keys, k) implies keys[j] < k by {
            if j > 0 {
                assert(keys[j] == rest[j - 1]);
            }
        }
    }
}

proof fn lemma_insert_key(keys: Seq<u64>, k: u64)
    requires
        strictly_ascending(keys),
    ensures
        strictly_ascending(insert_key(keys, k)),
        forall|x: u64| insert_key(keys, k).contains(x) <==> (keys.contains(x) || x == k),
{
    lemma_key_position_bounds(keys, k);
    let p = key_position(keys, k) as int;
    let r = insert_key(keys, k);
    if p < keys.len() && keys[p] == k {
        assert(keys.contains(k));
    } else {
        assert(r == keys.insert(p, k));
        assert forall|a: int, b: int| 0 <= a < b < r.len() implies r[a] < r[b] by {
            if b < p {
            } else if b == p {
            } else if a < p {
                assert(keys[a] < k);
                assert(keys[p] >= k);
                if a < p && b - 1 > p {
                    assert(keys[p] < keys[b - 1]);
                }
            } else if a == p {
                assert(keys[p] >= k);
                if b - 1 > p {
                    assert(keys[p] < keys[b - 1]);
                }
            } else {
            }
        }
        assert forall|x: u64| r.contains(x) <==> (keys.contains(x) || x == k) by {
            if r.contains(x) {
                let i = choose|i: int| 0 <= i < r.len() && r[i] == x;
                if i < p {
                    assert(keys[i] == x);
                } else if i > p {
                    assert(keys[i - 1] == x);
                }
            }
            if keys.contains(x) {
                let i = choose|i: int| 0 <= i < keys.len() && keys[i] == x;
                if i < p {
                    assert(r[i] == x);
                } else {
                    assert(r[i + 1] == x);
                }
            }
            if x == k {
                assert(r[p] == x);
            }
        }
    }
}

/// The samples of a capture are told apart by their sequence numbers: the
/// decoder visits each distinct sequence number of the raw rows exactly once,
/// in strictly ascending order.
pub proof fn sequence_keys_are_the_distinct_sequences(records: Seq<ResidencyRecord>)
    ensures
        strictly_ascending(sequence_keys(records)),
        forall|k: u64|
            sequence_keys(records).contains(k) <==> exists|i: int|
                0 <= i < records.len() && #[trigger] records[i].sequence == k,
    decreases records.len(),
{
    if records.len() > 0 {
        let init = records.drop_last();
        sequence_keys_are_the_distinct_sequences(init);
        lemma_insert_key(sequence_keys(init), records.last().sequence);
        assert forall|k: u64|
            sequence_keys(records).contains(k) <==> exists|i: int|
                0 <= i < records.len() && #[trigger] records[i].sequence == k by {
            if exists|i: int| 0 <= i < records.len() && #[trigger] records[i].sequence == k {
                let i = choose|i: int| 0 <= i < records.len() && #[trigger] records[i].sequence == k;
                if i < records.len() - 1 {
                    assert(init[i].sequence == k);
                }
            }
            if sequence_keys(init).contains(k) {
                let i = choose|i: int| 0 <= i < init.len() && #[trigger] init[i].sequence == k;
                assert(records[i].sequence == k);
            }
        }
    }
}

proof fn lemma_tally_len(
    catalog: GpuCatalogEntry,
    sequence: u64,
    records: Seq<ResidencyRecord>,
    n: nat,
)
    ensures
        tally_rows(catalog, sequence, records, n) matches Ok(t) ==> t.0.len()
            == catalog.states@.len(),
    decreases n,
{
    if n > 0 {
        lemma_tally_len(catalog, sequence, records, (n - 1) as nat);
    }
}

/// What a decoded sample keeps: its own sequence number, and busy and idle
/// residency that partition a positive total.
pub open spec fn sample_is_consistent(sample: GpuDiagnosticSample, sequence: u64) -> bool {
    &&& sample.sequence == sequence
    &&& sample.residency_total_ticks > 0
    &&& sample.residency_idle_ticks <= sample.residency_total_ticks
    &&& sample.residency_busy_ticks + sample.residency_idle_ticks == sample.residency_total_ticks
}

proof fn lemma_decoded_sequence(catalog: GpuCatalogEntry, sequence: u64, records: Seq<ResidencyRecord>)
    requires
        catalog.well_formed(),
    ensures
        decoded_sequence(catalog, sequence, records) matches Ok(s) ==> sample_is_consistent(
            s,
            sequence,
        ),
{
    lemma_tally_len(catalog, sequence, records, records.len());
    if let Ok((ticks, declared)) = tally_rows(catalog, sequence, records, records.len()) {
        let i = catalog.idle_state_index as int;
        if !(exists|j: int| 0 <= j < ticks.len() && ticks[j] is None) {
            assert(ticks[i] is Some);
            lemma_tick_sum_bounds(ticks, i);
        }
    }
}

/// A decoded capture holds one consistent sample per distinct sequence
/// number, in strictly ascending sequence order.
pub proof fn decoded_capture_is_ordered(catalog: GpuCatalogEntry, records: Seq<ResidencyRecord>)
    requires
        catalog.well_formed(),
    ensures
        decoded_capture(catalog, records) matches Ok(samples) ==> {
            &&& samples.len() == sequence_keys(records).len()
            &&& forall|a: int, b: int|
                0 <= a < b < samples.len() ==> samples[a].sequence < samples[b].sequence
            &&& forall|i: int|
                0 <= i < samples.len() ==> sample_is_consistent(
                    #[trigger] samples[i],
                    sequence_keys(records)[i],
                )
        },
{
    let keys = sequence_keys(records);
    sequence_keys_are_the_distinct_sequences(records);
    lemma_decoded_keys(catalog, records, keys, keys.len());
}

proof fn lemma_decoded_keys(
    catalog: GpuCatalogEntry,
    records: Seq<ResidencyRecord>,
    keys: Seq<u64>,
    n: nat,
)
    requires
        catalog.well_formed(),
        strictly_ascending(keys),
        n <= keys.len(),
    ensures
        decoded_keys(catalog, records, keys, n) matches Ok(samples) ==> {
            &&& samples.len() == n
            &&& forall|a: int, b: int|
                0 <= a < b < samples.len() ==> samples[a].sequence < samples[b].sequence
            &&& forall|i: int|
                0 <= i < samples.len() ==> sample_is_consistent(#[trigger] samples[i], keys[i])
        },
    decreases n,
{
    if n > 0 {
        lemma_decoded_keys(catalog, records, keys, (n - 1) as nat);
        lemma_decoded_sequence(catalog, keys[n - 1], sequence_rows(records, keys[n - 1]));
        if let Ok(samples) = decoded_keys(catalog, records, keys, n) {
            let prev = decoded_keys(catalog, records, keys, (n - 1) as nat)->Ok_0;
            assert(samples == prev.push(samples[n - 1]));
            assert forall|i: int| 0 <= i < samples.len() implies sample_is_consistent(
                #[trigger] samples[i],
                keys[i],
            ) by {
                if i < n - 1 {
                    assert(samples[i] == prev[i]);
                }
            }
            assert forall|a: int, b: int|
                0 <= a < b < samples.len() implies samples[a].sequence < samples[b].sequence by {
                assert(sample_is_consistent(samples[a], keys[a]));
                assert(sample_is_consistent(samples[b], keys[b]));
            }
        }
    }
}

/// The residency of the rows that are not of state `idle`, summed.
pub open spec fn non_idle_residency(records: Seq<ResidencyRecord>, idle: int) -> int
    decreases records.len(),
{
    if records.len() == 0 {
        0
    } else {
        non_idle_residency(records.drop_last(), idle) + if records.last().state_index != idle {
            records.last().residency_ticks as int
        } else {
            0
        }
    }
}

/// Recording a first residency for a state adds it to the sum.
proof fn lemma_tick_sum_update(ticks: Seq<Option<u64>>, i: int, r: u64)
    requires
        0 <= i < ticks.len(),
        ticks[i] is None,
    ensures
        tick_sum(ticks.update(i, Some(r))) == tick_sum(ticks) + r,
    decreases ticks.len(),
{
    let u = ticks.update(i, Some(r));
    if i < ticks.len() - 1 {
        assert(u.drop_last() =~= ticks.drop_last().update(i, Some(r)));
        lemma_tick_sum_update(ticks.drop_last(), i, r);
    } else {
        assert(u.drop_last() =~= ticks.drop_last());
    }
}

/// What the tally of the first `n` rows holds: each recorded residency is
/// that of a row of its state, the residencies of the other states' rows add
/// up to the sum less the idle state's, and every row so far declared the
/// total kept.
proof fn lemma_tally_follows_rows(
    catalog: GpuCatalogEntry,
    sequence: u64,
    records: Seq<ResidencyRecord>,
    n: nat,
)
    requires
        catalog.well_formed(),
        n <= records.len(),
    ensures
        tally_rows(catalog, sequence, records, n) matches Ok((t, d)) ==> {
            &&& t.len() == catalog.states@.len()
            &&& forall|j: int|
                0 <= j < t.len() && #[trigger] t[j] is Some ==> exists|k: int|
                    0 <= k < n && records[k].state_index == j && records[k].residency_ticks == t[j]->0
            &&& non_idle_residency(records.take(n as int), catalog.idle_state_index as int) + match t[
                catalog.idle_state_index as int
            ] {
                Some(v) => v as int,
                None => 0,
            } == tick_sum(t)
            &&& forall|k: int| 0 <= k < n ==> d == Some(#[trigger] records[k].total_ticks)
            &&& (n == 0 <==> d is None)
        },
    decreases n,
{
    let idle = catalog.idle_state_index as int;
    if n == 0 {
        let t = Seq::new(catalog.states@.len(), |i: int| None::<u64>);
        assert(records.take(0) =~= Seq::<ResidencyRecord>::empty());
        assert forall|m: nat| m <= t.len() implies tick_sum(t.subrange(0, m as int)) == 0 by {
            lemma_none_sum(t, m);
        }
        assert(t.subrange(0, t.len() as int) =~= t);
    } else {
        lemma_tally_follows_rows(catalog, sequence, records, (n - 1) as nat);
        if let Ok((t, d)) = tally_rows(catalog, sequence, records, n) {
            let (t0, d0) = tally_rows(catalog, sequence, records, (n - 1) as nat)->Ok_0;
            let r = records[n - 1];
            let i = r.state_index as int;
            assert(t == t0.update(i, Some(r.residency_ticks)));
            lemma_tick_sum_update(t0, i, r.residency_ticks);
            assert(records.take(n as int).drop_last() =~= records.take(n - 1));
            assert(records.take(n as int).last() == r);
            assert forall|j: int| 0 <= j < t.len() && #[trigger] t[j] is Some implies exists|k: int|
                0 <= k < n && records[k].state_index == j && records[k].residency_ticks == t[j]->0 by {
                if j == i {
                    assert(records[n - 1].state_index == j);
                } else {
                    assert(t[j] == t0[j]);
                    assert(t0[j] is Some);
                }
            }
            assert forall|k: int| 0 <= k < n implies d == Some(#[trigger] records[k].total_ticks) by {
                if k < n - 1 {
                    assert(d0 == Some(records[k].total_ticks));
                }
            }
        }
    }
}

/// Residencies of states not yet seen add up to nothing.
proof fn lemma_none_sum(t: Seq<Option<u64>>, m: nat)
    requires
        m <= t.len(),
        forall|i: int| 0 <= i < t.len() ==> t[i] is None,
    ensures
        tick_sum(t.subrange(0, m as int)) == 0,
    decreases m,
{
    if m > 0 {
        lemma_none_sum(t, (m - 1) as nat);
        assert(t.subrange(0, m as int).drop_last() =~= t.subrange(0, m - 1));
    }
}

/// A decoded sample splits the rows' residency: its idle residency is the
/// residency of the row of the catalog's idle state, its busy residency is
/// the residency of all the other states' rows added up, together they make
/// the total, and the total is the one every row declared.
pub proof fn decoded_samples_split_the_rows(
    catalog: GpuCatalogEntry,
    sequence: u64,
    records: Seq<ResidencyRecord>,
)
    requires
        catalog.well_formed(),
        decoded_sequence(catalog, sequence, records) is Ok,
    ensures
        ({
            let s = decoded_sequence(catalog, sequence, records)->Ok_0;
            &&& exists|k: int|
                0 <= k < records.len() && records[k].state_index == catalog.idle_state_index
                    && s.residency_idle_ticks == records[k].residency_ticks
            &&& s.residency_busy_ticks == non_idle_residency(records, catalog.idle_state_index as int)
            &&& s.residency_idle_ticks + s.residency_busy_ticks == s.residency_total_ticks
            &&& forall|k: int|
                0 <= k < records.len() ==> #[trigger] records[k].total_ticks == s.residency_total_ticks
        }),
{
    let n = records.len();
    lemma_tally_follows_rows(catalog, sequence, records, n);
    let (t, d) = tally_rows(catalog, sequence, records, n)->Ok_0;
    let idle = catalog.idle_state_index as int;
    assert(t[idle] is Some);
    assert(records.take(n as int) =~= records);
    lemma_tick_sum_bounds(t, idle);
}

} // verus!
