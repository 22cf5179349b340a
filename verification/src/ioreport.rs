//! The IOReport channel inventory: channel kinds and the rows a channel
//! expands to.
use vstd::prelude::*;
use vstd::string::StringExecFns;

use crate::text::{compare_text, decimal, push_decimal, text_lt, text_order_is_strict};

verus! {

/// A failure while reading the IOReport channel catalog.
#[derive(Debug)]
pub enum IoReportError {
    MissingChannelDictionary,
    InvalidChannelDictionary,
    InvalidChannelList,
    InvalidChannel { index: usize },
    InvalidStateCount { channel: String, count: i32 },
    StringTooLarge,
    InvalidString,
}

/// One row of the channel inventory: a channel, or one declared state of a
/// state channel.
#[derive(Debug)]
pub struct ChannelRecord {
    pub group: String,
    pub subgroup: String,
    pub channel: String,
    pub unit: String,
    pub kind: String,
    pub state_index: Option<u32>,
    pub state_name: String,
}

/// The name of an IOReport channel format.
pub open spec fn spec_kind_name(format: u8) -> Seq<char> {
    if format == 0 {
        "invalid"@
    } else if format == 1 {
        "simple"@
    } else if format == 2 {
        "state"@
    } else if format == 3 {
        "histogram"@
    } else if format == 4 {
        "simple_array"@
    } else {
        "unknown:"@ + decimal(format as nat)
    }
}

/// The name of an IOReport channel format (`unknown:<n>` for others).
pub fn kind_name(format: u8) -> (name: String)
    ensures
        name@ == spec_kind_name(format),
{
    match format {
        0 => String::from_str("invalid"),
        1 => String::from_str("simple"),
        2 => String::from_str("state"),
        3 => String::from_str("histogram"),
        4 => String::from_str("simple_array"),
        _ => {
            let mut name = String::from_str("unknown:");
            push_decimal(&mut name, format as u64);
            name
        },
    }
}

/// Whether `record` describes the channel with these names and kind, as
/// state `index` (or as the channel itself when `index` is `None`).
pub open spec fn describes(
    record: ChannelRecord,
    group: String,
    subgroup: String,
    channel: String,
    unit: String,
    format: u8,
    index: Option<u32>,
    state_name: Seq<char>,
) -> bool {
    &&& record.group == group
    &&& record.subgroup == subgroup
    &&& record.channel == channel
    &&& record.unit == unit
    &&& record.kind@ == spec_kind_name(format)
    &&& record.state_index == index
    &&& record.state_name@ == state_name
}

/// The inventory rows of one channel: one row per declared state, in state
/// order, for a state channel (format 2) with states; otherwise a single row
/// with no state.
pub fn records_for_channel(
    group: String,
    subgroup: String,
    channel: String,
    unit: String,
    format: u8,
    states: &[String],
) -> (records: Vec<ChannelRecord>)
    ensures
        format == 2 && states@.len() > 0 ==> records@.len() == states@.len() && forall|i: int|
            0 <= i < states@.len() ==> describes(
                #[trigger] records@[i],
                group,
                subgroup,
                channel,
                unit,
                format,
                Some(i as u32),
                states@[i]@,
            ),
        !(format == 2 && states@.len() > 0) ==> records@.len() == 1 && describes(
            records@[0],
            group,
            subgroup,
            channel,
            unit,
            format,
            None,
            Seq::empty(),
        ),
{
    let mut records: Vec<ChannelRecord> = Vec::new();
    if format == 2 && states.len() > 0 {
        let mut i: usize = 0;
        while i < states.len()
            invariant
                format == 2,
                i <= states@.len(),
                records@.len() == i,
                forall|k: int|
                    0 <= k < i ==> describes(
                        #[trigger] records@[k],
                        group,
                        subgroup,
                        channel,
                        unit,
                        format,
                        Some(k as u32),
                        states@[k]@,
                    ),
            decreases states@.len() - i,
        {
            records.push(
                ChannelRecord {
                    group: group.clone(),
                    subgroup: subgroup.clone(),
                    channel: channel.clone(),
                    unit: unit.clone(),
                    kind: kind_name(format),
                    state_index: Some(i as u32),
                    state_name: states[i].clone(),
                },
            );
            i += 1;
        }
    } else {
        let kind = kind_name(format);
        records.push(
            ChannelRecord {
                group,
                subgroup,
                channel,
                unit,
                kind,
                state_index: None,
                state_name: String::new(),
            },
        );
    }
    records
}

/// What the IOReport catalog says of one channel: its names, its format,
/// the state count it reports, and the names of its states (for a state
/// channel, one per state, empty where the catalog gives none).
#[derive(Debug)]
pub struct ChannelDescription {
    pub group: String,
    pub subgroup: String,
    pub channel: String,
    pub unit: String,
    pub format: u8,
    pub state_count: i32,
    pub states: Vec<String>,
}

/// A state channel whose state count is negative cannot be inventoried.
pub open spec fn invalid_state_count(d: ChannelDescription) -> bool {
    d.format == 2 && d.state_count < 0
}

/// The text of an inventory row, field by field: what the inventory is
/// ordered by.
pub type RecordKey = (Seq<char>, Seq<char>, Seq<char>, Seq<char>, Seq<char>, Option<u32>, Seq<char>);

/// The key of an inventory row.
pub open spec fn record_key(r: ChannelRecord) -> RecordKey {
    (r.group@, r.subgroup@, r.channel@, r.unit@, r.kind@, r.state_index, r.state_name@)
}

/// The keys of inventory rows.
pub open spec fn record_keys(rs: Seq<ChannelRecord>) -> Seq<RecordKey> {
    rs.map_values(|r: ChannelRecord| record_key(r))
}

/// The keys of the rows one channel expands to.
pub open spec fn channel_keys(d: ChannelDescription) -> Seq<RecordKey> {
    if d.format == 2 && d.states@.len() > 0 {
        Seq::new(
            d.states@.len(),
            |i: int|
                (
                    d.group@,
                    d.subgroup@,
                    d.channel@,
                    d.unit@,
                    spec_kind_name(d.format),
                    Some(i as u32),
                    d.states@[i]@,
                ),
        )
    } else {
        seq![(d.group@, d.subgroup@, d.channel@, d.unit@, spec_kind_name(d.format), None, Seq::empty())]
    }
}

/// The keys of the rows of all channels, channel by channel.
pub open spec fn catalog_keys(ds: Seq<ChannelDescription>) -> Seq<RecordKey>
    decreases ds.len(),
{
    if ds.len() == 0 {
        Seq::empty()
    } else {
        catalog_keys(ds.drop_last()) + channel_keys(ds.last())
    }
}

/// `None` sorts before any state index.
pub open spec fn index_lt(a: Option<u32>, b: Option<u32>) -> bool {
    match (a, b) {
        (None, Some(_)) => true,
        (Some(x), Some(y)) => x < y,
        _ => false,
    }
}

/// Whether key `a` sorts strictly before key `b`: lexicographically by group,
/// subgroup, channel, unit, kind, state index and state name.
pub open spec fn key_lt(a: RecordKey, b: RecordKey) -> bool {
    text_lt(a.0, b.0) || (a.0 == b.0 && (text_lt(a.1, b.1) || (a.1 == b.1 && (text_lt(a.2, b.2) || (
    a.2 == b.2 && (text_lt(a.3, b.3) || (a.3 == b.3 && (text_lt(a.4, b.4) || (a.4 == b.4 && (
    index_lt(a.5, b.5) || (a.5 == b.5 && text_lt(a.6, b.6))))))))))))
}

/// Whether no key sorts strictly before an earlier one.
pub open spec fn keys_sorted(keys: Seq<RecordKey>) -> bool {
    forall|i: int, j: int| 0 <= i < j < keys.len() ==> !key_lt(keys[j], keys[i])
}

/// The inventory order is a strict order: never `a < a`, and `a < b < c`
/// gives `a < c`.
pub proof fn inventory_order_is_strict(a: RecordKey, b: RecordKey, c: RecordKey)
    ensures
        !key_lt(a, a),
        key_lt(a, b) && key_lt(b, c) ==> key_lt(a, c),
{
    text_order_is_strict(a.0, b.0, c.0);
    text_order_is_strict(a.1, b.1, c.1);
    text_order_is_strict(a.2, b.2, c.2);
    text_order_is_strict(a.3, b.3, c.3);
    text_order_is_strict(a.4, b.4, c.4);
    text_order_is_strict(a.6, b.6, c.6);
}

/// Whether row `x` sorts strictly before row `y`.
fn record_before(x: &ChannelRecord, y: &ChannelRecord) -> (before: bool)
    ensures
        before == key_lt(record_key(*x), record_key(*y)),
{
    let (lt, eq) = compare_text(x.group.as_str(), y.group.as_str());
    if lt || !eq {
        return lt;
    }
    let (lt, eq) = compare_text(x.subgroup.as_str(), y.subgroup.as_str());
    if lt || !eq {
        return lt;
    }
    let (lt, eq) = compare_text(x.channel.as_str(), y.channel.as_str());
    if lt || !eq {
        return lt;
    }
    let (lt, eq) = compare_text(x.unit.as_str(), y.unit.as_str());
    if lt || !eq {
        return lt;
    }
    let (lt, eq) = compare_text(x.kind.as_str(), y.kind.as_str());
    if lt || !eq {
        return lt;
    }
    match (x.state_index, y.state_index) {
        (None, Some(_)) => return true,
        (Some(_), None) => return false,
        (Some(a), Some(b)) => {
            if a != b {
                return a < b;
            }
        },
        (None, None) => {},
    }
    let (lt, _) = compare_text(x.state_name.as_str(), y.state_name.as_str());
    lt
}

/// Inserts `record` into sorted `rows` after every row that does not sort
/// after it.
fn insert_sorted(rows: &mut Vec<ChannelRecord>, record: ChannelRecord)
    requires
        keys_sorted(record_keys(old(rows)@)),
    ensures
        keys_sorted(record_keys(final(rows)@)),
        record_keys(final(rows)@).to_multiset() == record_keys(old(rows)@).to_multiset().insert(
            record_key(record),
        ),
{
    let ghost before = record_keys(rows@);
    let ghost x = record_key(record);
    let mut p: usize = 0;
    while p < rows.len() && !record_before(&record, &rows[p])
        invariant
            p <= rows@.len(),
            rows@ == old(rows)@,
            before == record_keys(rows@),
            x == record_key(record),
            forall|k: int| 0 <= k < p ==> !key_lt(x, #[trigger] before[k]),
        decreases rows@.len() - p,
    {
        p += 1;
    }
    rows.insert(p, record);
    proof {
        let after = record_keys(rows@);
        assert(after =~= before.insert(p as int, x));
        vstd::seq_lib::to_multiset_insert(before, p as int, x);
        assert forall|i: int, j: int| 0 <= i < j < after.len() implies !key_lt(after[j], after[i]) by {
            if i < p && j == p {
            } else if i == p && j > p {
                let y = before[j - 1];
                assert(key_lt(x, before[p as int]));
                if key_lt(y, x) {
                    inventory_order_is_strict(y, x, before[p as int]);
                    if j - 1 == p {
                        inventory_order_is_strict(y, y, y);
                    }
                }
            } else if i < p && j > p {
                assert(!key_lt(before[j - 1], before[i]));
            } else if i > p {
                assert(!key_lt(before[j - 1], before[i - 1]));
            } else {
                assert(!key_lt(before[j], before[i]));
            }
        }
    }
}

/// The inventory of the IOReport catalog: every channel expanded to its
/// rows, sorted by group, subgroup, channel, unit, kind, state index and
/// state name. A state channel with a negative state count fails the whole
/// inventory, the first such channel naming the error.
pub fn discover(channels: &[ChannelDescription]) -> (inventory: Result<Vec<ChannelRecord>, IoReportError>)
    ensures
        inventory is Ok <==> forall|i: int| 0 <= i < channels@.len() ==> !invalid_state_count(
            #[trigger] channels@[i],
        ),
        inventory matches Ok(rows) ==> keys_sorted(record_keys(rows@)) && record_keys(
            rows@,
        ).to_multiset() == catalog_keys(channels@).to_multiset(),
        inventory matches Err(e) ==> exists|i: int|
            0 <= i < channels@.len() && invalid_state_count(#[trigger] channels@[i]) && (forall|
                j: int,
            | 0 <= j < i ==> !invalid_state_count(channels@[j])) && (e matches IoReportError::InvalidStateCount {
                channel,
                count,
            } && channel@ == channels@[i].channel@ && count == channels@[i].state_count),
{
    let ghost all = channels@;
    let mut rows: Vec<ChannelRecord> = Vec::new();
    let mut i: usize = 0;
    proof {
        assert(record_keys(rows@) =~= catalog_keys(all.take(0)));
    }
    while i < channels.len()
        invariant
            all == channels@,
            i <= all.len(),
            forall|j: int| 0 <= j < i ==> !invalid_state_count(#[trigger] all[j]),
            keys_sorted(record_keys(rows@)),
            record_keys(rows@).to_multiset() == catalog_keys(all.take(i as int)).to_multiset(),
        decreases all.len() - i,
    {
        let d = &channels[i];
        if d.format == 2 && d.state_count < 0 {
            return Err(IoReportError::InvalidStateCount { channel: d.channel.clone(), count: d.state_count });
        }
        let ghost before = record_keys(rows@);
        let ghost ck = channel_keys(all[i as int]);
        let mut expanded = records_for_channel(
            d.group.clone(),
            d.subgroup.clone(),
            d.channel.clone(),
            d.unit.clone(),
            d.format,
            d.states.as_slice(),
        );
        proof {
            assert(record_keys(expanded@) =~= ck);
            assert(record_keys(expanded@).len() == expanded@.len());
            assert(before + ck.take(0) =~= before);
        }
        let total = expanded.len();
        let ghost m = ck.len();
        let mut k: usize = 0;
        while expanded.len() > 0
            invariant
                k + expanded@.len() == m,
                m == ck.len(),
                m == total,
                record_keys(expanded@) == ck.subrange(k as int, m as int),
                keys_sorted(record_keys(rows@)),
                record_keys(rows@).to_multiset() == (before + ck.take(k as int)).to_multiset(),
            decreases expanded@.len(),
        {
            let ghost e = expanded@;
            let r = expanded.remove(0);
            proof {
                assert(record_keys(e)[0] == record_key(e[0]));
                assert(ck.subrange(k as int, m as int)[0] == ck[k as int]);
                assert(record_key(r) == ck[k as int]);
                assert(expanded@ =~= e.subrange(1, e.len() as int));
                assert forall|j: int| 0 <= j < expanded@.len() implies #[trigger] record_keys(expanded@)[j]
                    == ck.subrange(k + 1, m as int)[j] by {
                    assert(record_keys(e)[j + 1] == record_key(e[j + 1]));
                    assert(ck.subrange(k as int, m as int)[j + 1] == ck[k + 1 + j]);
                }
                assert(record_keys(expanded@) =~= ck.subrange(k + 1, m as int));
                assert(before + ck.take(k + 1) =~= (before + ck.take(k as int)).push(ck[k as int]));
            }
            insert_sorted(&mut rows, r);
            proof {
                vstd::seq_lib::to_multiset_build(before + ck.take(k as int), ck[k as int]);
            }
            k += 1;
        }
        proof {
            assert(ck.take(m as int) =~= ck);
            assert(all.take(i + 1).drop_last() =~= all.take(i as int));
            assert(catalog_keys(all.take(i + 1)) == catalog_keys(all.take(i as int)) + ck);
            vstd::seq_lib::lemma_multiset_commutative(before, ck);
            vstd::seq_lib::lemma_multiset_commutative(catalog_keys(all.take(i as int)), ck);
        }
        i += 1;
    }
    proof {
        assert(all.take(all.len() as int) =~= all);
    }
    Ok(rows)
}

} // verus!
