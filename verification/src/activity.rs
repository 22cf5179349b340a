//! Summaries of `xctrace` exports of the `activity-monitor-process-live`
//! schema: the document's rows are resolved through `ref` attributes and
//! reduced to counter and gauge deltas for one process. The column and id
//! tables are lists searched by text rather than maps: their keys are
//! strings, and a std map keyed by strings has no specified contents to
//! state contracts over.
use vstd::prelude::*;
use vstd::string::StringExecFns;

use crate::text::{
    chars_of, compare_text, decimal, parse_u64, parse_u64_text, push_char, push_decimal, push_str, string_from, trim_text,
    trimmed, NumberError,
};
use crate::xml::{built_document, doc_view, error_view, is_tree, parse_document, Document, Element, XmlError};

verus! {

/// The schema name of Activity Monitor process exports.
pub open spec fn activity_schema() -> Seq<char> {
    "activity-monitor-process-live"@
}

/// The elements standing directly in element `i`, among the first `n`, in
/// document order.
pub open spec fn child_indices(doc: &Document, i: int, n: int) -> Seq<int>
    decreases n,
{
    if n <= 0 {
        Seq::empty()
    } else if doc.elements@[n - 1].parent == Some(i as usize) {
        child_indices(doc, i, n - 1).push(n - 1)
    } else {
        child_indices(doc, i, n - 1)
    }
}

/// The elements standing directly in element `i`, in document order.
pub open spec fn children(doc: &Document, i: int) -> Seq<int> {
    child_indices(doc, i, doc.elements@.len() as int)
}

/// The first of `kids` named `name`.
pub open spec fn first_named(doc: &Document, kids: Seq<int>, name: Seq<char>) -> Option<int>
    decreases kids.len(),
{
    if kids.len() == 0 {
        None
    } else if doc.elements@[kids[0]].name@ == name {
        Some(kids[0])
    } else {
        first_named(doc, kids.drop_first(), name)
    }
}

/// The first child of element `i` named `name`.
pub open spec fn child(doc: &Document, i: int, name: Seq<char>) -> Option<int> {
    first_named(doc, children(doc, i), name)
}

/// The value of the first attribute named `key`.
pub open spec fn attribute_in(attributes: Seq<(String, String)>, key: Seq<char>) -> Option<Seq<char>>
    decreases attributes.len(),
{
    if attributes.len() == 0 {
        None
    } else if attributes[0].0@ == key {
        Some(attributes[0].1@)
    } else {
        attribute_in(attributes.drop_first(), key)
    }
}

/// The value of attribute `key` of element `i`.
pub open spec fn attribute(doc: &Document, i: int, key: Seq<char>) -> Option<Seq<char>> {
    attribute_in(doc.elements@[i].attributes@, key)
}

proof fn lemma_child_indices(doc: &Document, i: int, n: int)
    requires
        0 <= n <= doc.elements@.len(),
    ensures
        forall|k: int|
            0 <= k < child_indices(doc, i, n).len() ==> 0 <= #[trigger] child_indices(doc, i, n)[k]
                < n,
    decreases n,
{
    if n > 0 {
        lemma_child_indices(doc, i, n - 1);
        let prev = child_indices(doc, i, n - 1);
        assert forall|k: int| 0 <= k < child_indices(doc, i, n).len() implies 0
            <= #[trigger] child_indices(doc, i, n)[k] < n by {
            if k < prev.len() {
                assert(child_indices(doc, i, n)[k] == prev[k]);
            }
        }
    }
}

/// The children of element `i`, in document order.
pub fn children_of(doc: &Document, i: usize) -> (kids: Vec<usize>)
    ensures
        kids@.len() == children(doc, i as int).len(),
        forall|k: int| 0 <= k < kids@.len() ==> kids@[k] as int == #[trigger] children(doc, i as int)[k],
        forall|k: int| 0 <= k < kids@.len() ==> #[trigger] kids@[k] < doc.elements@.len(),
{
    let n = doc.elements.len();
    let mut kids: Vec<usize> = Vec::new();
    let mut j: usize = 0;
    while j < n
        invariant
            n == doc.elements@.len(),
            j <= n,
            kids@.len() == child_indices(doc, i as int, j as int).len(),
            forall|k: int|
                0 <= k < kids@.len() ==> kids@[k] as int == #[trigger] child_indices(
                    doc,
                    i as int,
                    j as int,
                )[k],
        decreases n - j,
    {
        if doc.elements[j].parent == Some(i) {
            kids.push(j);
        }
        j += 1;
    }
    proof {
        lemma_child_indices(doc, i as int, n as int);
        assert forall|k: int| 0 <= k < kids@.len() implies #[trigger] kids@[k] < doc.elements@.len() by {
            assert(kids@[k] as int == children(doc, i as int)[k]);
        }
    }
    kids
}

/// The first child of element `i` named `name`.
pub fn child_named(doc: &Document, i: usize, name: &str) -> (found: Option<usize>)
    ensures
        match child(doc, i as int, name@) {
            Some(c) => found matches Some(f) && f == c && 0 <= c < doc.elements@.len(),
            None => found is None,
        },
{
    let kids = children_of(doc, i);
    let ghost all = children(doc, i as int);
    assert(all.skip(0) =~= all);
    let mut k: usize = 0;
    while k < kids.len()
        invariant
            k <= kids@.len(),
            kids@.len() == all.len(),
            all == children(doc, i as int),
            forall|m: int| 0 <= m < kids@.len() ==> kids@[m] as int == #[trigger] all[m],
            forall|m: int| 0 <= m < kids@.len() ==> #[trigger] kids@[m] < doc.elements@.len(),
            first_named(doc, all, name@) == first_named(doc, all.skip(k as int), name@),
        decreases kids@.len() - k,
    {
        let c = kids[k];
        let (_, same) = compare_text(doc.elements[c].name.as_str(), name);
        assert(all.skip(k as int)[0] == all[k as int]);
        if same {
            return Some(c);
        }
        assert(all.skip(k as int).drop_first() =~= all.skip(k + 1));
        k += 1;
    }
    None
}

/// The value of attribute `key` of element `i`.
pub fn attribute_of(doc: &Document, i: usize, key: &str) -> (value: Option<String>)
    requires
        i < doc.elements@.len(),
    ensures
        match attribute(doc, i as int, key@) {
            Some(v) => value matches Some(s) && s@ == v,
            None => value is None,
        },
{
    let attributes = &doc.elements[i].attributes;
    let ghost all = attributes@;
    assert(all.skip(0) =~= all);
    let mut k: usize = 0;
    while k < attributes.len()
        invariant
            k <= all.len(),
            all == attributes@,
            i < doc.elements@.len(),
            all == doc.elements@[i as int].attributes@,
            attribute_in(all, key@) == attribute_in(all.skip(k as int), key@),
        decreases all.len() - k,
    {
        let (_, same) = compare_text(attributes[k].0.as_str(), key);
        assert(all.skip(k as int)[0] == all[k as int]);
        if same {
            let v = attributes[k].1.clone();
            assert(all.skip(k as int).len() > 0);
            assert(v@ == all[k as int].1@);
            return Some(v);
        }
        assert(all.skip(k as int).drop_first() =~= all.skip(k + 1));
        k += 1;
    }
    None
}

/// Why an Activity Monitor export could not be summarized.
#[derive(Debug)]
pub enum ActivityError {
    Xml(XmlError),
    NoActivityNode,
    MissingMnemonic,
    DuplicateColumn { mnemonic: String },
    NoColumns,
    DuplicateId { id: String },
    MissingColumn { mnemonic: String },
    MissingValue { mnemonic: String },
    ReferenceCycle { mnemonic: String, id: String },
    UnknownId { mnemonic: String, id: String },
    Unavailable { mnemonic: String },
    InvalidNumber { mnemonic: String, reason: NumberError },
    PidTooLarge,
    EmptyProcessName,
    NotEnoughSamples { found: usize },
    MultipleProcesses,
    TimesNotIncreasing,
    CounterDecreased { name: String, start: u64, end: u64 },
    GaugeDeltaTooLarge,
}

/// Whether element `i` is the `node` of the Activity Monitor schema: its
/// `schema` child is named `activity-monitor-process-live`.
pub open spec fn is_activity_node(doc: &Document, i: int) -> bool {
    &&& doc.elements@[i].name@ == "node"@
    &&& child(doc, i, "schema"@) matches Some(c) && attribute(doc, c, "name"@) == Some(activity_schema())
}

/// The first Activity Monitor node in document order, among the first `n`
/// elements.
pub open spec fn activity_node_upto(doc: &Document, n: int) -> Option<int>
    decreases n,
{
    if n <= 0 {
        None
    } else {
        match activity_node_upto(doc, n - 1) {
            Some(i) => Some(i),
            None => if is_activity_node(doc, n - 1) {
                Some(n - 1)
            } else {
                None
            },
        }
    }
}

/// The first Activity Monitor node in document order.
pub open spec fn activity_node(doc: &Document) -> Option<int> {
    activity_node_upto(doc, doc.elements@.len() as int)
}

proof fn lemma_activity_node_upto(doc: &Document, n: int)
    requires
        0 <= n,
    ensures
        activity_node_upto(doc, n) matches Some(i) ==> 0 <= i < n && is_activity_node(doc, i),
    decreases n,
{
    if n > 0 {
        lemma_activity_node_upto(doc, n - 1);
    }
}

proof fn lemma_activity_node_stable(doc: &Document, k: int, m: int)
    requires
        0 <= k <= m,
        activity_node_upto(doc, k) is Some,
    ensures
        activity_node_upto(doc, m) == activity_node_upto(doc, k),
    decreases m - k,
{
    if k < m {
        lemma_activity_node_stable(doc, k, m - 1);
    }
}

/// Finds the first Activity Monitor node and its `schema` child.
pub fn find_activity_node(doc: &Document) -> (found: Option<(usize, usize)>)
    ensures
        match activity_node(doc) {
            None => found is None,
            Some(i) => found matches Some((node, schema)) && node == i && child(doc, i, "schema"@)
                == Some(schema as int) && schema < doc.elements@.len() && node
                < doc.elements@.len(),
        },
{
    let n = doc.elements.len();
    let mut i: usize = 0;
    while i < n
        invariant
            n == doc.elements@.len(),
            i <= n,
            activity_node_upto(doc, i as int) is None,
        decreases n - i,
    {
        let (_, is_node) = compare_text(doc.elements[i].name.as_str(), "node");
        if is_node {
            if let Some(schema) = child_named(doc, i, "schema") {
                assert(child(doc, i as int, "schema"@) is Some);
                assert(schema as int == child(doc, i as int, "schema"@)->0);
                if let Some(name) = attribute_of(doc, schema, "name") {
                    let (_, matches) = compare_text(name.as_str(), "activity-monitor-process-live");
                    if matches {
                        assert(is_activity_node(doc, i as int));
                        proof {
                            lemma_activity_node_stable(doc, i + 1, n as int);
                        }
                        return Some((i, schema));
                    }
                }
            }
        }
        assert(!is_activity_node(doc, i as int));
        i += 1;
    }
    None
}

/// A problem with the schema's columns.
pub enum ColumnIssue {
    Missing,
    Duplicate(Seq<char>),
}

/// The mnemonic of column element `col`: the trimmed text of its
/// `mnemonic` child, when there is one and it is not empty.
pub open spec fn mnemonic(doc: &Document, col: int) -> Option<Seq<char>> {
    match child(doc, col, "mnemonic"@) {
        None => None,
        Some(m) => if trimmed(doc.texts@[m]@).len() == 0 {
            None
        } else {
            Some(trimmed(doc.texts@[m]@))
        },
    }
}

/// The `col` children among `kids`, in order.
pub open spec fn col_elements(doc: &Document, kids: Seq<int>) -> Seq<int> {
    kids.filter(|k: int| doc.elements@[k].name@ == "col"@)
}

/// The mnemonics of the first `n` columns, or the first problem.
pub open spec fn column_names(doc: &Document, cols: Seq<int>, n: int) -> Result<Seq<Seq<char>>, ColumnIssue>
    decreases n,
{
    if n <= 0 {
        Ok(Seq::empty())
    } else {
        match column_names(doc, cols, n - 1) {
            Err(e) => Err(e),
            Ok(names) => match mnemonic(doc, cols[n - 1]) {
                None => Err(ColumnIssue::Missing),
                Some(m) => if names.contains(m) {
                    Err(ColumnIssue::Duplicate(m))
                } else {
                    Ok(names.push(m))
                },
            },
        }
    }
}

/// The mnemonics of the schema's columns in column order, or the first
/// problem: a column without mnemonic, a repeated mnemonic, or no column.
pub open spec fn schema_column_names(doc: &Document, schema: int) -> Result<Seq<Seq<char>>, ColumnIssue> {
    let cols = col_elements(doc, children(doc, schema));
    column_names(doc, cols, cols.len() as int)
}

/// The views of some strings.
pub open spec fn views(strings: Seq<String>) -> Seq<Seq<char>> {
    strings.map_values(|s: String| s@)
}

proof fn lemma_col_step(doc: &Document, kids: Seq<int>, k: int)
    requires
        0 <= k < kids.len(),
    ensures
        col_elements(doc, kids.take(k + 1)) == if doc.elements@[kids[k]].name@ == "col"@ {
            col_elements(doc, kids.take(k)).push(kids[k])
        } else {
            col_elements(doc, kids.take(k))
        },
{
    reveal_with_fuel(Seq::filter, 1);
    assert(kids.take(k + 1).drop_last() =~= kids.take(k));
}

/// Whether `name` is one of `names`, by text.
fn contains_name(names: &Vec<String>, name: &String) -> (found: bool)
    ensures
        found == views(names@).contains(name@),
{
    let mut k: usize = 0;
    while k < names.len()
        invariant
            k <= names@.len(),
            forall|j: int| 0 <= j < k ==> names@[j]@ != name@,
        decreases names@.len() - k,
    {
        let (_, same) = compare_text(names[k].as_str(), name.as_str());
        if same {
            assert(views(names@)[k as int] == name@);
            return true;
        }
        k += 1;
    }
    proof {
        if views(names@).contains(name@) {
            let j = choose|j: int| 0 <= j < views(names@).len() && views(names@)[j] == name@;
            assert(names@[j]@ == name@);
        }
    }
    false
}

/// The mnemonics of the schema's columns, in column order; a column's index
/// is its position.
pub fn schema_columns(doc: &Document, schema: usize) -> (columns: Result<Vec<String>, ActivityError>)
    requires
        is_tree(doc),
        schema < doc.elements@.len(),
    ensures
        match schema_column_names(doc, schema as int) {
            Ok(names) => if names.len() == 0 {
                columns matches Err(ActivityError::NoColumns)
            } else {
                columns matches Ok(c) && views(c@) == names
            },
            Err(ColumnIssue::Missing) => columns matches Err(ActivityError::MissingMnemonic),
            Err(ColumnIssue::Duplicate(m)) => columns matches Err(ActivityError::DuplicateColumn { mnemonic })
                && mnemonic@ == m,
        },
{
    let kids = children_of(doc, schema);
    let ghost all = children(doc, schema as int);
    let total = doc.elements.len();
    let mut names: Vec<String> = Vec::new();
    let mut k: usize = 0;
    proof {
        assert(kids@.len() == all.len());
        assert(all.take(0) =~= Seq::<int>::empty());
        reveal_with_fuel(Seq::filter, 1);
        assert(col_elements(doc, all.take(0)) =~= Seq::<int>::empty());
        assert(views(names@) =~= Seq::<Seq<char>>::empty());
    }
    while k < kids.len()
        invariant
            is_tree(doc),
            total == doc.elements@.len(),
            k <= kids@.len(),
            kids@.len() == all.len(),
            all == children(doc, schema as int),
            forall|m: int| 0 <= m < kids@.len() ==> kids@[m] as int == #[trigger] all[m],
            forall|m: int| 0 <= m < kids@.len() ==> #[trigger] kids@[m] < doc.elements@.len(),
            column_names(
                doc,
                col_elements(doc, all.take(k as int)),
                col_elements(doc, all.take(k as int)).len() as int,
            ) == Ok::<Seq<Seq<char>>, ColumnIssue>(views(names@)),
        decreases kids@.len() - k,
    {
        let c = kids[k];
        let ghost before = col_elements(doc, all.take(k as int));
        proof {
            lemma_col_step(doc, all, k as int);
        }
        let (_, is_col) = compare_text(doc.elements[c].name.as_str(), "col");
        if is_col {
            let ghost cols = col_elements(doc, all.take(k + 1));
            assert(cols == before.push(c as int));
            assert(cols.subrange(0, before.len() as int) =~= before);
            proof {
                lemma_column_names_prefix(doc, cols, before, before.len() as int);
            }
            assert(column_names(doc, cols, before.len() as int) == Ok::<Seq<Seq<char>>, ColumnIssue>(
                views(names@),
            ));
            let found = child_named(doc, c, "mnemonic");
            let m = match found {
                Some(m) => m,
                None => {
                    proof {
                        lemma_columns_fail(doc, schema as int, k + 1);
                    }
                    return Err(ActivityError::MissingMnemonic);
                },
            };
            let text = trim_text(doc.texts[m].as_str());
            if text.len() == 0 {
                proof {
                    assert(child(doc, c as int, "mnemonic"@) == Some(m as int));
                    assert(trimmed(doc.texts@[m as int]@).len() == 0);
                    assert(mnemonic(doc, c as int) is None);
                    assert(cols[cols.len() - 1] == c as int);
                    lemma_columns_fail(doc, schema as int, k + 1);
                }
                return Err(ActivityError::MissingMnemonic);
            }
            let name = string_from(text.as_slice());
            assert(mnemonic(doc, c as int) == Some(name@));
            if contains_name(&names, &name) {
                proof {
                    lemma_columns_fail(doc, schema as int, k + 1);
                }
                return Err(ActivityError::DuplicateColumn { mnemonic: name });
            }
            let ghost old_names = names@;
            names.push(name);
            assert(views(names@) =~= views(old_names).push(name@));
        }
        k += 1;
    }
    proof {
        assert(all.take(all.len() as int) =~= all);
    }
    if names.len() == 0 {
        return Err(ActivityError::NoColumns);
    }
    Ok(names)
}

proof fn lemma_col_prefix(doc: &Document, all: Seq<int>, k: int)
    requires
        0 <= k <= all.len(),
    ensures
        col_elements(doc, all.take(k)).len() <= col_elements(doc, all).len(),
        col_elements(doc, all).subrange(0, col_elements(doc, all.take(k)).len() as int)
            == col_elements(doc, all.take(k)),
    decreases all.len() - k,
{
    if k == all.len() {
        assert(all.take(k) =~= all);
        assert(col_elements(doc, all).subrange(0, col_elements(doc, all).len() as int) =~= col_elements(
            doc,
            all,
        ));
    } else {
        lemma_col_prefix(doc, all, k + 1);
        lemma_col_step(doc, all, k);
        let small = col_elements(doc, all.take(k));
        let big = col_elements(doc, all.take(k + 1));
        let full = col_elements(doc, all);
        assert(big.subrange(0, small.len() as int) =~= small);
        assert(full.subrange(0, small.len() as int) =~= full.subrange(0, big.len() as int).subrange(
            0,
            small.len() as int,
        ));
    }
}

proof fn lemma_column_names_stable(doc: &Document, cols: Seq<int>, n: int, m: int)
    requires
        0 <= n <= m,
        column_names(doc, cols, n) is Err,
    ensures
        column_names(doc, cols, m) == column_names(doc, cols, n),
    decreases m - n,
{
    if n < m {
        lemma_column_names_stable(doc, cols, n, m - 1);
    }
}

/// When the columns up to the `k`-th child already fail, the schema fails
/// the same way.
proof fn lemma_columns_fail(doc: &Document, schema: int, k: int)
    requires
        0 <= k <= children(doc, schema).len(),
        column_names(
            doc,
            col_elements(doc, children(doc, schema).take(k)),
            col_elements(doc, children(doc, schema).take(k)).len() as int,
        ) is Err,
    ensures
        schema_column_names(doc, schema) == column_names(
            doc,
            col_elements(doc, children(doc, schema).take(k)),
            col_elements(doc, children(doc, schema).take(k)).len() as int,
        ),
{
    let all = children(doc, schema);
    let part = col_elements(doc, all.take(k));
    let full = col_elements(doc, all);
    lemma_col_prefix(doc, all, k);
    lemma_column_names_prefix(doc, full, part, part.len() as int);
    lemma_column_names_stable(doc, full, part.len() as int, full.len() as int);
}

proof fn lemma_column_names_prefix(doc: &Document, cols: Seq<int>, prefix: Seq<int>, n: int)
    requires
        0 <= n <= prefix.len() <= cols.len(),
        cols.subrange(0, prefix.len() as int) == prefix,
    ensures
        column_names(doc, cols, n) == column_names(doc, prefix, n),
    decreases n,
{
    if n > 0 {
        lemma_column_names_prefix(doc, cols, prefix, n - 1);
        assert(cols[n - 1] == prefix[n - 1]);
    }
}

/// The element carrying `id` in an id table, if any.
pub open spec fn lookup(table: Seq<(Seq<char>, int)>, id: Seq<char>) -> Option<int>
    decreases table.len(),
{
    if table.len() == 0 {
        None
    } else if table[0].0 == id {
        Some(table[0].1)
    } else {
        lookup(table.drop_first(), id)
    }
}

/// The `id` attributes of the first `n` elements with the element carrying
/// each, in document order, or the first id that repeats.
pub open spec fn id_table(doc: &Document, n: int) -> Result<Seq<(Seq<char>, int)>, Seq<char>>
    decreases n,
{
    if n <= 0 {
        Ok(Seq::empty())
    } else {
        match id_table(doc, n - 1) {
            Err(id) => Err(id),
            Ok(table) => match attribute(doc, n - 1, "id"@) {
                None => Ok(table),
                Some(id) => if lookup(table, id) is Some {
                    Err(id)
                } else {
                    Ok(table.push((id, n - 1)))
                },
            },
        }
    }
}

/// The views of an exec id table.
pub open spec fn table_view(ids: Seq<(String, usize)>) -> Seq<(Seq<char>, int)> {
    ids.map_values(|e: (String, usize)| (e.0@, e.1 as int))
}

proof fn lemma_id_table_stable(doc: &Document, n: int, m: int)
    requires
        0 <= n <= m,
        id_table(doc, n) is Err,
    ensures
        id_table(doc, m) == id_table(doc, n),
    decreases m - n,
{
    if n < m {
        lemma_id_table_stable(doc, n, m - 1);
    }
}

/// Looks `id` up in the table.
fn find_id(ids: &Vec<(String, usize)>, id: &str) -> (found: Option<usize>)
    ensures
        match lookup(table_view(ids@), id@) {
            Some(k) => found matches Some(f) && f == k,
            None => found is None,
        },
{
    let ghost all = table_view(ids@);
    assert(all.skip(0) =~= all);
    let mut k: usize = 0;
    while k < ids.len()
        invariant
            k <= ids@.len(),
            all == table_view(ids@),
            lookup(all, id@) == lookup(all.skip(k as int), id@),
        decreases ids@.len() - k,
    {
        let (_, same) = compare_text(ids[k].0.as_str(), id);
        assert(all.skip(k as int)[0] == all[k as int]);
        if same {
            return Some(ids[k].1);
        }
        assert(all.skip(k as int).drop_first() =~= all.skip(k + 1));
        k += 1;
    }
    None
}

/// The id table of the whole document, or `DuplicateId` with the first id
/// that repeats in document order.
pub fn collect_ids(doc: &Document) -> (ids: Result<Vec<(String, usize)>, ActivityError>)
    ensures
        match id_table(doc, doc.elements@.len() as int) {
            Ok(table) => ids matches Ok(t) && table_view(t@) == table,
            Err(id) => ids matches Err(ActivityError::DuplicateId { id: i }) && i@ == id,
        },
{
    let n = doc.elements.len();
    let mut ids: Vec<(String, usize)> = Vec::new();
    let mut j: usize = 0;
    assert(table_view(ids@) =~= Seq::<(Seq<char>, int)>::empty());
    while j < n
        invariant
            n == doc.elements@.len(),
            j <= n,
            id_table(doc, j as int) == Ok::<Seq<(Seq<char>, int)>, Seq<char>>(table_view(ids@)),
        decreases n - j,
    {
        if let Some(id) = attribute_of(doc, j, "id") {
            if find_id(&ids, id.as_str()).is_some() {
                proof {
                    lemma_id_table_stable(doc, j + 1, n as int);
                }
                return Err(ActivityError::DuplicateId { id });
            }
            let ghost before = ids@;
            ids.push((id, j));
            assert(table_view(ids@) =~= table_view(before).push((id@, j as int)));
        }
        j += 1;
    }
    Ok(ids)
}

/// A `ref` that cannot be followed.
pub enum RefIssue {
    Unknown(Seq<char>),
    Cycle(Seq<char>),
}

/// The element that element `j` stands for: `ref` attributes are followed
/// through the id table until an element without one; a `ref` to an
/// element already reached (or a chain longer than `fuel`) is a cycle.
pub open spec fn resolve_from(
    doc: &Document,
    table: Seq<(Seq<char>, int)>,
    j: int,
    visited: Seq<int>,
    fuel: nat,
) -> Result<int, RefIssue>
    decreases fuel,
{
    match attribute(doc, j, "ref"@) {
        None => Ok(j),
        Some(r) => if fuel == 0 {
            Err(RefIssue::Cycle(r))
        } else {
            match lookup(table, r) {
                None => Err(RefIssue::Unknown(r)),
                Some(k) => if visited.contains(k) {
                    Err(RefIssue::Cycle(r))
                } else {
                    resolve_from(doc, table, k, visited.push(k), (fuel - 1) as nat)
                },
            }
        },
    }
}

/// The element that element `j` stands for.
pub open spec fn resolved(doc: &Document, table: Seq<(Seq<char>, int)>, j: int) -> Result<int, RefIssue> {
    resolve_from(doc, table, j, Seq::empty(), doc.elements@.len())
}

/// Whether every element named in the table exists.
pub open spec fn table_in_bounds(doc: &Document, table: Seq<(Seq<char>, int)>) -> bool {
    forall|k: int| 0 <= k < table.len() ==> 0 <= #[trigger] table[k].1 < doc.elements@.len()
}

proof fn lemma_lookup_in_table(table: Seq<(Seq<char>, int)>, id: Seq<char>)
    ensures
        lookup(table, id) matches Some(e) ==> exists|k: int| 0 <= k < table.len() && #[trigger] table[k].1 == e,
    decreases table.len(),
{
    if table.len() > 0 && table[0].0 != id {
        lemma_lookup_in_table(table.drop_first(), id);
        if let Some(e) = lookup(table, id) {
            let k = choose|k: int| 0 <= k < table.drop_first().len() && #[trigger] table.drop_first()[k].1 == e;
            assert(table[k + 1].1 == e);
        }
    } else if table.len() > 0 {
        assert(table[0].1 == lookup(table, id)->0);
    }
}

/// Follows the `ref` attributes from element `j`.
pub fn resolve_reference(doc: &Document, ids: &Vec<(String, usize)>, j: usize) -> (target: Result<usize, RefIssueText>)
    requires
        j < doc.elements@.len(),
        table_in_bounds(doc, table_view(ids@)),
    ensures
        match resolved(doc, table_view(ids@), j as int) {
            Ok(k) => target matches Ok(t) && t == k,
            Err(RefIssue::Unknown(r)) => target matches Err(RefIssueText::Unknown(t)) && t@ == r,
            Err(RefIssue::Cycle(r)) => target matches Err(RefIssueText::Cycle(t)) && t@ == r,
        },
{
    let n = doc.elements.len();
    let ghost table = table_view(ids@);
    let mut current = j;
    let mut visited: Vec<usize> = Vec::new();
    let mut fuel: usize = n;
    let ghost start = resolved(doc, table, j as int);
    assert(visited@.map_values(|v: usize| v as int) =~= Seq::<int>::empty());
    loop
        invariant
            n == doc.elements@.len(),
            start == resolved(doc, table_view(ids@), j as int),
            current < n,
            table == table_view(ids@),
            table_in_bounds(doc, table),
            start == resolve_from(doc, table, current as int, visited@.map_values(|v: usize| v as int), fuel as nat),
        decreases fuel,
    {
        let reference = match attribute_of(doc, current, "ref") {
            None => return Ok(current),
            Some(r) => r,
        };
        if fuel == 0 {
            return Err(RefIssueText::Cycle(reference));
        }
        let k = match find_id(ids, reference.as_str()) {
            None => return Err(RefIssueText::Unknown(reference)),
            Some(k) => k,
        };
        proof {
            lemma_lookup_in_table(table, reference@);
        }
        let ghost seen = visited@.map_values(|v: usize| v as int);
        let ghost outcome = resolve_from(doc, table, current as int, seen, fuel as nat);
        assert(outcome == if seen.contains(k as int) {
            Err::<int, RefIssue>(RefIssue::Cycle(reference@))
        } else {
            resolve_from(doc, table, k as int, seen.push(k as int), (fuel - 1) as nat)
        });
        let mut m: usize = 0;
        while m < visited.len()
            invariant
                m <= visited@.len(),
                seen == visited@.map_values(|v: usize| v as int),
                forall|x: int| 0 <= x < m ==> seen[x] != k as int,
                start == outcome,
                start == resolved(doc, table_view(ids@), j as int),
                outcome == if seen.contains(k as int) {
                    Err::<int, RefIssue>(RefIssue::Cycle(reference@))
                } else {
                    resolve_from(doc, table, k as int, seen.push(k as int), (fuel - 1) as nat)
                },
            decreases visited@.len() - m,
        {
            if visited[m] == k {
                assert(seen[m as int] == k as int);
                assert(seen.contains(k as int));
                return Err(RefIssueText::Cycle(reference));
            }
            m += 1;
        }
        assert(!seen.contains(k as int));
        visited.push(k);
        assert(visited@.map_values(|v: usize| v as int) =~= seen.push(k as int));
        current = k;
        fuel -= 1;
    }
}

/// A `ref` that cannot be followed, with its text.
#[derive(Debug)]
pub enum RefIssueText {
    Unknown(String),
    Cycle(String),
}

/// Why a value of a row could not be read.
pub enum FieldIssue {
    MissingColumn,
    MissingValue,
    Ref(RefIssue),
    Unavailable,
    Number(NumberError),
}

/// The position of column `m`.
pub open spec fn column_index(cols: Seq<Seq<char>>, m: Seq<char>) -> Option<int>
    decreases cols.len(),
{
    if cols.len() == 0 {
        None
    } else if cols[0] == m {
        Some(0)
    } else {
        match column_index(cols.drop_first(), m) {
            Some(i) => Some(i + 1),
            None => None,
        }
    }
}

/// The element holding the value of column `m` in `row`: the child at the
/// column's position, with its `ref` attributes followed.
pub open spec fn value_element(
    doc: &Document,
    row: int,
    cols: Seq<Seq<char>>,
    table: Seq<(Seq<char>, int)>,
    m: Seq<char>,
) -> Result<int, FieldIssue> {
    match column_index(cols, m) {
        None => Err(FieldIssue::MissingColumn),
        Some(ix) => if ix >= children(doc, row).len() {
            Err(FieldIssue::MissingValue)
        } else {
            match resolved(doc, table, children(doc, row)[ix]) {
                Err(e) => Err(FieldIssue::Ref(e)),
                Ok(e) => Ok(e),
            }
        },
    }
}

/// The number element `e` holds: refused for a `sentinel`, otherwise its
/// trimmed text read as `u64::from_str` does.
pub open spec fn number_value(doc: &Document, e: int) -> Result<u64, FieldIssue> {
    if doc.elements@[e].name@ == "sentinel"@ {
        Err(FieldIssue::Unavailable)
    } else {
        match parse_u64(trimmed(doc.texts@[e]@)) {
            Err(n) => Err(FieldIssue::Number(n)),
            Ok(v) => Ok(v),
        }
    }
}

/// The number in column `m` of `row`.
pub open spec fn field(
    doc: &Document,
    row: int,
    cols: Seq<Seq<char>>,
    table: Seq<(Seq<char>, int)>,
    m: Seq<char>,
) -> Result<u64, FieldIssue> {
    match value_element(doc, row, cols, table, m) {
        Err(i) => Err(i),
        Ok(e) => number_value(doc, e),
    }
}

/// Whether `error` reports `issue` for column `m`.
pub open spec fn reports_field(error: ActivityError, m: Seq<char>, issue: FieldIssue) -> bool {
    match issue {
        FieldIssue::MissingColumn => error matches ActivityError::MissingColumn { mnemonic } && mnemonic@ == m,
        FieldIssue::MissingValue => error matches ActivityError::MissingValue { mnemonic } && mnemonic@ == m,
        FieldIssue::Ref(RefIssue::Unknown(r)) => error matches ActivityError::UnknownId { mnemonic, id }
            && mnemonic@ == m && id@ == r,
        FieldIssue::Ref(RefIssue::Cycle(r)) => error matches ActivityError::ReferenceCycle { mnemonic, id }
            && mnemonic@ == m && id@ == r,
        FieldIssue::Unavailable => error matches ActivityError::Unavailable { mnemonic } && mnemonic@ == m,
        FieldIssue::Number(n) => error matches ActivityError::InvalidNumber { mnemonic, reason } && mnemonic@
            == m && reason == n,
    }
}

/// What a row is read with: the document, the columns and the id table.
pub open spec fn lookup_ready(doc: &Document, cols: Seq<String>, ids: Seq<(String, usize)>) -> bool {
    &&& is_tree(doc)
    &&& table_in_bounds(doc, table_view(ids))
}

/// The position of column `mnemonic`.
fn find_column(columns: &Vec<String>, mnemonic: &str) -> (found: Option<usize>)
    ensures
        match column_index(views(columns@), mnemonic@) {
            Some(i) => found matches Some(f) && f == i && 0 <= i < columns@.len(),
            None => found is None,
        },
{
    let ghost all = views(columns@);
    let mut k: usize = 0;
    assert(all.skip(0) =~= all);
    while k < columns.len()
        invariant
            k <= columns@.len(),
            all == views(columns@),
            column_index(all, mnemonic@) == match column_index(all.skip(k as int), mnemonic@) {
                Some(i) => Some(i + k),
                None => None,
            },
        decreases columns@.len() - k,
    {
        let (_, same) = compare_text(columns[k].as_str(), mnemonic);
        assert(all.skip(k as int)[0] == all[k as int]);
        if same {
            return Some(k);
        }
        assert(all.skip(k as int).drop_first() =~= all.skip(k + 1));
        k += 1;
    }
    None
}

/// The element holding the value of column `mnemonic` in `row`, whose
/// children are `kids`.
fn value_element_of(
    doc: &Document,
    row: usize,
    kids: &Vec<usize>,
    columns: &Vec<String>,
    ids: &Vec<(String, usize)>,
    mnemonic: &str,
) -> (element: Result<usize, ActivityError>)
    requires
        lookup_ready(doc, columns@, ids@),
        kids@.len() == children(doc, row as int).len(),
        forall|k: int| 0 <= k < kids@.len() ==> kids@[k] as int == #[trigger] children(doc, row as int)[k],
        forall|k: int| 0 <= k < kids@.len() ==> #[trigger] kids@[k] < doc.elements@.len(),
    ensures
        match value_element(doc, row as int, views(columns@), table_view(ids@), mnemonic@) {
            Ok(e) => element matches Ok(x) && x == e && 0 <= e < doc.elements@.len(),
            Err(issue) => element matches Err(error) && reports_field(error, mnemonic@, issue),
        },
{
    let index = match find_column(columns, mnemonic) {
        None => return Err(ActivityError::MissingColumn { mnemonic: String::from_str(mnemonic) }),
        Some(i) => i,
    };
    if index >= kids.len() {
        return Err(ActivityError::MissingValue { mnemonic: String::from_str(mnemonic) });
    }
    let start = kids[index];
    let total = doc.elements.len();
    match resolve_reference(doc, ids, start) {
        Ok(e) => {
            proof {
                lemma_resolved_in_bounds(doc, table_view(ids@), start as int);
            }
            Ok(e)
        },
        Err(RefIssueText::Unknown(id)) => Err(
            ActivityError::UnknownId { mnemonic: String::from_str(mnemonic), id },
        ),
        Err(RefIssueText::Cycle(id)) => Err(
            ActivityError::ReferenceCycle { mnemonic: String::from_str(mnemonic), id },
        ),
    }
}

proof fn lemma_resolve_from_in_bounds(
    doc: &Document,
    table: Seq<(Seq<char>, int)>,
    j: int,
    visited: Seq<int>,
    fuel: nat,
)
    requires
        0 <= j < doc.elements@.len(),
        table_in_bounds(doc, table),
    ensures
        resolve_from(doc, table, j, visited, fuel) matches Ok(e) ==> 0 <= e < doc.elements@.len(),
    decreases fuel,
{
    if let Some(r) = attribute(doc, j, "ref"@) {
        if fuel > 0 {
            lemma_lookup_in_table(table, r);
            if let Some(k) = lookup(table, r) {
                if !visited.contains(k) {
                    lemma_resolve_from_in_bounds(doc, table, k, visited.push(k), (fuel - 1) as nat);
                }
            }
        }
    }
}

proof fn lemma_resolved_in_bounds(doc: &Document, table: Seq<(Seq<char>, int)>, j: int)
    requires
        0 <= j < doc.elements@.len(),
        table_in_bounds(doc, table),
    ensures
        resolved(doc, table, j) matches Ok(e) ==> 0 <= e < doc.elements@.len(),
{
    lemma_resolve_from_in_bounds(doc, table, j, Seq::empty(), doc.elements@.len());
}

/// The number element `e` holds, for column `mnemonic`.
fn number_of(doc: &Document, e: usize, mnemonic: &str) -> (value: Result<u64, ActivityError>)
    requires
        is_tree(doc),
        e < doc.elements@.len(),
    ensures
        match number_value(doc, e as int) {
            Ok(v) => value == Ok::<u64, ActivityError>(v),
            Err(issue) => value matches Err(error) && reports_field(error, mnemonic@, issue),
        },
{
    let (_, sentinel) = compare_text(doc.elements[e].name.as_str(), "sentinel");
    if sentinel {
        return Err(ActivityError::Unavailable { mnemonic: String::from_str(mnemonic) });
    }
    let text = trim_text(doc.texts[e].as_str());
    match parse_u64_text(text.as_slice()) {
        Ok(v) => Ok(v),
        Err(reason) => Err(ActivityError::InvalidNumber { mnemonic: String::from_str(mnemonic), reason }),
    }
}

/// The number in column `mnemonic` of `row`.
fn field_of(
    doc: &Document,
    row: usize,
    kids: &Vec<usize>,
    columns: &Vec<String>,
    ids: &Vec<(String, usize)>,
    mnemonic: &str,
) -> (value: Result<u64, ActivityError>)
    requires
        lookup_ready(doc, columns@, ids@),
        kids@.len() == children(doc, row as int).len(),
        forall|k: int| 0 <= k < kids@.len() ==> kids@[k] as int == #[trigger] children(doc, row as int)[k],
        forall|k: int| 0 <= k < kids@.len() ==> #[trigger] kids@[k] < doc.elements@.len(),
    ensures
        match field(doc, row as int, views(columns@), table_view(ids@), mnemonic@) {
            Ok(v) => value == Ok::<u64, ActivityError>(v),
            Err(issue) => value matches Err(error) && reports_field(error, mnemonic@, issue),
        },
{
    let e = match value_element_of(doc, row, kids, columns, ids, mnemonic) {
        Ok(e) => e,
        Err(error) => return Err(error),
    };
    number_of(doc, e, mnemonic)
}

/// One row of an export, read.
#[derive(Debug)]
pub struct ActivitySample {
    pub start_ns: u64,
    pub process_name: String,
    pub pid: u32,
    pub cpu_total_ns: u64,
    pub thread_count: u64,
    pub port_count: u64,
    pub physical_footprint_bytes: u64,
    pub private_bytes: u64,
    pub idle_wakeups: u64,
    pub disk_bytes_written: u64,
    pub disk_bytes_read: u64,
}

/// Why a row could not be read.
pub enum SampleIssue {
    Field(Seq<char>, FieldIssue),
    PidTooLarge,
    EmptyProcessName,
}

/// The process name an element gives: its `fmt` attribute when that is not
/// empty, otherwise its trimmed text.
pub open spec fn raw_process_name(doc: &Document, e: int) -> Seq<char> {
    match attribute(doc, e, "fmt"@) {
        Some(f) => if f.len() > 0 {
            f
        } else {
            trimmed(doc.texts@[e]@)
        },
        None => trimmed(doc.texts@[e]@),
    }
}

/// ` (<pid>)`, the suffix the export appends to process names.
pub open spec fn pid_suffix(pid: u64) -> Seq<char> {
    " ("@ + crate::text::decimal(pid as nat) + ")"@
}

/// `s` without `suffix` when it ends with it.
pub open spec fn without_suffix(s: Seq<char>, suffix: Seq<char>) -> Seq<char> {
    if suffix.len() <= s.len() && s.subrange(s.len() - suffix.len(), s.len() as int) == suffix {
        s.subrange(0, s.len() - suffix.len())
    } else {
        s
    }
}

/// The columns read after the process, in order.
pub open spec fn counter_columns() -> Seq<Seq<char>> {
    seq![
        "start"@,
        "cpu-total"@,
        "thread-count"@,
        "mach-port-count"@,
        "memory-physical-footprint"@,
        "memory-real-private"@,
        "idle-wakeups"@,
        "disk-bytes-written"@,
        "disk-bytes-read"@,
    ]
}

/// The first of the columns `ms[k..]` whose value cannot be read.
pub open spec fn first_field_issue(
    doc: &Document,
    row: int,
    cols: Seq<Seq<char>>,
    table: Seq<(Seq<char>, int)>,
    ms: Seq<Seq<char>>,
    k: int,
) -> Option<SampleIssue>
    decreases ms.len() - k,
{
    if k < 0 || k >= ms.len() {
        None
    } else {
        match field(doc, row, cols, table, ms[k]) {
            Err(i) => Some(SampleIssue::Field(ms[k], i)),
            Ok(_) => first_field_issue(doc, row, cols, table, ms, k + 1),
        }
    }
}

/// Why `row` cannot be read, checking the pid, then the process name, then
/// the other columns in order; none when it can.
pub open spec fn sample_issue(
    doc: &Document,
    row: int,
    cols: Seq<Seq<char>>,
    table: Seq<(Seq<char>, int)>,
) -> Option<SampleIssue> {
    match field(doc, row, cols, table, "pid"@) {
        Err(i) => Some(SampleIssue::Field("pid"@, i)),
        Ok(pid) => if pid > u32::MAX {
            Some(SampleIssue::PidTooLarge)
        } else {
            match value_element(doc, row, cols, table, "process"@) {
                Err(i) => Some(SampleIssue::Field("process"@, i)),
                Ok(e) => if raw_process_name(doc, e).len() == 0 {
                    Some(SampleIssue::EmptyProcessName)
                } else {
                    first_field_issue(doc, row, cols, table, counter_columns(), 0)
                },
            }
        },
    }
}

/// Whether `error` reports `issue`.
pub open spec fn reports_sample(error: ActivityError, issue: SampleIssue) -> bool {
    match issue {
        SampleIssue::Field(m, i) => reports_field(error, m, i),
        SampleIssue::PidTooLarge => error matches ActivityError::PidTooLarge,
        SampleIssue::EmptyProcessName => error matches ActivityError::EmptyProcessName,
    }
}

/// Whether `sample` holds what `row` says.
pub open spec fn reads_row(
    sample: ActivitySample,
    doc: &Document,
    row: int,
    cols: Seq<Seq<char>>,
    table: Seq<(Seq<char>, int)>,
) -> bool {
    let num = |m: Seq<char>| field(doc, row, cols, table, m);
    &&& num("pid"@) == Ok::<u64, FieldIssue>(sample.pid as u64)
    &&& value_element(doc, row, cols, table, "process"@) matches Ok(e) && sample.process_name@
        == without_suffix(raw_process_name(doc, e), pid_suffix(sample.pid as u64))
    &&& num("start"@) == Ok::<u64, FieldIssue>(sample.start_ns)
    &&& num("cpu-total"@) == Ok::<u64, FieldIssue>(sample.cpu_total_ns)
    &&& num("thread-count"@) == Ok::<u64, FieldIssue>(sample.thread_count)
    &&& num("mach-port-count"@) == Ok::<u64, FieldIssue>(sample.port_count)
    &&& num("memory-physical-footprint"@) == Ok::<u64, FieldIssue>(sample.physical_footprint_bytes)
    &&& num("memory-real-private"@) == Ok::<u64, FieldIssue>(sample.private_bytes)
    &&& num("idle-wakeups"@) == Ok::<u64, FieldIssue>(sample.idle_wakeups)
    &&& num("disk-bytes-written"@) == Ok::<u64, FieldIssue>(sample.disk_bytes_written)
    &&& num("disk-bytes-read"@) == Ok::<u64, FieldIssue>(sample.disk_bytes_read)
}

/// `text` without `suffix` when it ends with it.
fn strip_suffix(text: &[char], suffix: &[char]) -> (stripped: Vec<char>)
    ensures
        stripped@ == without_suffix(text@, suffix@),
{
    let n = text.len();
    let m = suffix.len();
    let mut keep = n;
    if m <= n {
        let mut k: usize = 0;
        let mut same = true;
        while k < m
            invariant
                m <= n,
                n == text@.len(),
                m == suffix@.len(),
                k <= m,
                same == (forall|j: int| 0 <= j < k ==> text@[n - m + j] == suffix@[j]),
            decreases m - k,
        {
            if text[n - m + k] != suffix[k] {
                same = false;
            }
            k += 1;
        }
        if same {
            assert(text@.subrange(n - m, n as int) =~= suffix@);
            keep = n - m;
        } else {
            assert(text@.subrange(n - m, n as int) != suffix@) by {
                let j = choose|j: int| 0 <= j < m && text@[n - m + j] != suffix@[j];
                assert(text@.subrange(n - m, n as int)[j] == text@[n - m + j]);
            }
        }
    }
    let mut out: Vec<char> = Vec::new();
    let mut i: usize = 0;
    while i < keep
        invariant
            keep <= n,
            n == text@.len(),
            i <= keep,
            out@ == text@.take(i as int),
        decreases keep - i,
    {
        out.push(text[i]);
        assert(out@ =~= text@.take(i + 1));
        i += 1;
    }
    assert(out@ =~= text@.subrange(0, keep as int));
    out
}

/// Reads `row` (one `row` element of the export) into a sample.
pub fn parse_sample(doc: &Document, row: usize, columns: &Vec<String>, ids: &Vec<(String, usize)>) -> (sample:
    Result<ActivitySample, ActivityError>)
    requires
        lookup_ready(doc, columns@, ids@),
    ensures
        match sample_issue(doc, row as int, views(columns@), table_view(ids@)) {
            None => sample matches Ok(s) && reads_row(s, doc, row as int, views(columns@), table_view(ids@)),
            Some(issue) => sample matches Err(e) && reports_sample(e, issue),
        },
{
    let ghost cols = views(columns@);
    let ghost table = table_view(ids@);
    let kids = children_of(doc, row);
    let pid_value = field_of(doc, row, &kids, columns, ids, "pid")?;
    if pid_value > 0xffff_ffffu64 {
        return Err(ActivityError::PidTooLarge);
    }
    let pid = pid_value as u32;
    let process = value_element_of(doc, row, &kids, columns, ids, "process")?;
    let raw: Vec<char> = match attribute_of(doc, process, "fmt") {
        Some(f) => {
            let chars = chars_of(f.as_str());
            if chars.len() > 0 {
                chars
            } else {
                trim_text(doc.texts[process].as_str())
            }
        },
        None => trim_text(doc.texts[process].as_str()),
    };
    assert(raw@ == raw_process_name(doc, process as int));
    if raw.len() == 0 {
        return Err(ActivityError::EmptyProcessName);
    }
    let mut suffix_text = String::from_str(" (");
    push_decimal(&mut suffix_text, pid_value);
    push_char(&mut suffix_text, ')');
    proof {
        reveal_strlit(" (");
        reveal_strlit(")");
        assert(suffix_text@ =~= pid_suffix(pid_value));
    }
    let suffix = chars_of(suffix_text.as_str());
    let name = strip_suffix(raw.as_slice(), suffix.as_slice());
    let process_name = crate::text::string_from(name.as_slice());
    proof {
        reveal_with_fuel(first_field_issue, 10);
    }
    let start_ns = field_of(doc, row, &kids, columns, ids, "start")?;
    let cpu_total_ns = field_of(doc, row, &kids, columns, ids, "cpu-total")?;
    let thread_count = field_of(doc, row, &kids, columns, ids, "thread-count")?;
    let port_count = field_of(doc, row, &kids, columns, ids, "mach-port-count")?;
    let physical_footprint_bytes = field_of(doc, row, &kids, columns, ids, "memory-physical-footprint")?;
    let private_bytes = field_of(doc, row, &kids, columns, ids, "memory-real-private")?;
    let idle_wakeups = field_of(doc, row, &kids, columns, ids, "idle-wakeups")?;
    let disk_bytes_written = field_of(doc, row, &kids, columns, ids, "disk-bytes-written")?;
    let disk_bytes_read = field_of(doc, row, &kids, columns, ids, "disk-bytes-read")?;
    Ok(
        ActivitySample {
            start_ns,
            process_name,
            pid,
            cpu_total_ns,
            thread_count,
            port_count,
            physical_footprint_bytes,
            private_bytes,
            idle_wakeups,
            disk_bytes_written,
            disk_bytes_read,
        },
    )
}

/// A counter over the observation: first and last value and their
/// difference.
#[derive(Clone, Copy, Debug, PartialEq, Eq, Structural)]
pub struct CounterSummary {
    pub start: u64,
    pub end: u64,
    pub delta: u64,
}

/// A gauge over the observation: first and last value, their difference,
/// and the smallest and largest value seen.
#[derive(Clone, Copy, Debug, PartialEq, Eq, Structural)]
pub struct GaugeSummary {
    pub start: u64,
    pub end: u64,
    pub delta: i64,
    pub min: u64,
    pub max: u64,
}

/// The summary of one process's samples.
#[derive(Debug)]
pub struct ActivitySummary {
    pub schema_version: u32,
    pub process_name: String,
    pub pid: u32,
    pub samples: usize,
    pub start_ns: u64,
    pub end_ns: u64,
    pub duration_ns: u64,
    pub cpu_start_ns: u64,
    pub cpu_end_ns: u64,
    pub cpu_delta_ns: u64,
    pub idle_wakeups: CounterSummary,
    pub physical_footprint_bytes: GaugeSummary,
    pub private_bytes: GaugeSummary,
    pub threads: GaugeSummary,
    pub ports: GaugeSummary,
    pub bytes_read: CounterSummary,
    pub bytes_written: CounterSummary,
}

/// The smallest of some values.
pub open spec fn seq_min(values: Seq<u64>) -> u64
    decreases values.len(),
{
    if values.len() <= 1 {
        values[0]
    } else {
        let rest = seq_min(values.drop_last());
        if values.last() < rest {
            values.last()
        } else {
            rest
        }
    }
}

/// The largest of some values.
pub open spec fn seq_max(values: Seq<u64>) -> u64
    decreases values.len(),
{
    if values.len() <= 1 {
        values[0]
    } else {
        let rest = seq_max(values.drop_last());
        if values.last() > rest {
            values.last()
        } else {
            rest
        }
    }
}

/// Whether a difference fits in an `i64`.
pub open spec fn fits_i64(x: int) -> bool {
    i64::MIN <= x <= i64::MAX
}

/// The gauge over `values` (at least one), or `None` when the difference of
/// the last and first value does not fit in an `i64`.
pub open spec fn spec_gauge(values: Seq<u64>) -> Option<GaugeSummary> {
    let delta = values.last() - values[0];
    if fits_i64(delta) {
        Some(
            GaugeSummary {
                start: values[0],
                end: values.last(),
                delta: delta as i64,
                min: seq_min(values),
                max: seq_max(values),
            },
        )
    } else {
        None
    }
}

/// Summarizes a gauge over `values`.
pub fn gauge_summary(values: &[u64]) -> (gauge: Result<GaugeSummary, ActivityError>)
    requires
        values@.len() > 0,
    ensures
        match spec_gauge(values@) {
            Some(g) => gauge == Ok::<GaugeSummary, ActivityError>(g),
            None => gauge matches Err(ActivityError::GaugeDeltaTooLarge),
        },
{
    let n = values.len();
    let start = values[0];
    let end = values[n - 1];
    let wide = end as i128 - start as i128;
    if wide < i64::MIN as i128 || wide > i64::MAX as i128 {
        return Err(ActivityError::GaugeDeltaTooLarge);
    }
    let mut min = values[0];
    let mut max = values[0];
    let mut i: usize = 1;
    while i < n
        invariant
            n == values@.len(),
            1 <= i <= n,
            min == seq_min(values@.take(i as int)),
            max == seq_max(values@.take(i as int)),
        decreases n - i,
    {
        assert(values@.take(i + 1).drop_last() =~= values@.take(i as int));
        if values[i] < min {
            min = values[i];
        }
        if values[i] > max {
            max = values[i];
        }
        i += 1;
    }
    assert(values@.take(n as int) =~= values@);
    Ok(GaugeSummary { start, end, delta: wide as i64, min, max })
}

/// The growth of a counter from `start` to `end`; a counter that went down
/// is refused, naming the counter.
pub fn monotonic_delta(start: u64, end: u64, name: &str) -> (delta: Result<u64, ActivityError>)
    ensures
        end >= start ==> delta == Ok::<u64, ActivityError>((end - start) as u64),
        end < start ==> (delta matches Err(ActivityError::CounterDecreased { name: n, start: s, end: e })
            && n@ == name@ && s == start && e == end),
{
    if end < start {
        return Err(ActivityError::CounterDecreased { name: String::from_str(name), start, end });
    }
    Ok(end - start)
}

/// A counter over the observation.
pub fn counter_summary(start: u64, end: u64, name: &str) -> (counter: Result<CounterSummary, ActivityError>)
    ensures
        end >= start ==> counter == Ok::<CounterSummary, ActivityError>(
            CounterSummary { start, end, delta: (end - start) as u64 },
        ),
        end < start ==> (counter matches Err(ActivityError::CounterDecreased { name: n, start: s, end: e })
            && n@ == name@ && s == start && e == end),
{
    let delta = monotonic_delta(start, end, name)?;
    Ok(CounterSummary { start, end, delta })
}

/// Why samples cannot be summarized.
pub enum SummaryIssue {
    NotEnoughSamples(nat),
    MultipleProcesses,
    TimesNotIncreasing,
    Decreased(Seq<char>, u64, u64),
    GaugeDelta,
}

/// Whether every sample is of the first sample's process.
pub open spec fn one_process(s: Seq<ActivitySample>) -> bool {
    forall|i: int|
        0 <= i < s.len() ==> (#[trigger] s[i]).pid == s[0].pid && s[i].process_name@
            == s[0].process_name@
}

/// Whether sample `i` was taken before sample `i + 1`.
pub open spec fn step_up(s: Seq<ActivitySample>, i: int) -> bool {
    s[i].start_ns < s[i + 1].start_ns
}

/// Whether sample times strictly increase.
pub open spec fn increasing(s: Seq<ActivitySample>) -> bool {
    forall|i: int| 0 <= i < s.len() - 1 ==> #[trigger] step_up(s, i)
}

/// The values of one gauge, sample by sample.
pub open spec fn gauge_values(s: Seq<ActivitySample>, which: int) -> Seq<u64> {
    s.map_values(
        |x: ActivitySample|
            if which == 0 {
                x.physical_footprint_bytes
            } else if which == 1 {
                x.private_bytes
            } else if which == 2 {
                x.thread_count
            } else {
                x.port_count
            },
    )
}

/// Why `s` cannot be summarized, in the order the checks are made; none
/// when it can.
pub open spec fn summary_issue(s: Seq<ActivitySample>) -> Option<SummaryIssue> {
    let first = s[0];
    let last = s.last();
    if s.len() < 2 {
        Some(SummaryIssue::NotEnoughSamples(s.len()))
    } else if !one_process(s) {
        Some(SummaryIssue::MultipleProcesses)
    } else if !increasing(s) {
        Some(SummaryIssue::TimesNotIncreasing)
    } else if last.cpu_total_ns < first.cpu_total_ns {
        Some(SummaryIssue::Decreased("CPU time"@, first.cpu_total_ns, last.cpu_total_ns))
    } else if last.idle_wakeups < first.idle_wakeups {
        Some(SummaryIssue::Decreased("idle wakeups"@, first.idle_wakeups, last.idle_wakeups))
    } else if spec_gauge(gauge_values(s, 0)) is None || spec_gauge(gauge_values(s, 1)) is None
        || spec_gauge(gauge_values(s, 2)) is None || spec_gauge(gauge_values(s, 3)) is None {
        Some(SummaryIssue::GaugeDelta)
    } else if last.disk_bytes_read < first.disk_bytes_read {
        Some(SummaryIssue::Decreased("disk bytes read"@, first.disk_bytes_read, last.disk_bytes_read))
    } else if last.disk_bytes_written < first.disk_bytes_written {
        Some(
            SummaryIssue::Decreased(
                "disk bytes written"@,
                first.disk_bytes_written,
                last.disk_bytes_written,
            ),
        )
    } else {
        None
    }
}

/// Whether `error` reports `issue`.
pub open spec fn reports_summary(error: ActivityError, issue: SummaryIssue) -> bool {
    match issue {
        SummaryIssue::NotEnoughSamples(n) => error matches ActivityError::NotEnoughSamples { found }
            && found == n,
        SummaryIssue::MultipleProcesses => error matches ActivityError::MultipleProcesses,
        SummaryIssue::TimesNotIncreasing => error matches ActivityError::TimesNotIncreasing,
        SummaryIssue::Decreased(name, start, end) => error matches ActivityError::CounterDecreased {
            name: n,
            start: s,
            end: e,
        } && n@ == name && s == start && e == end,
        SummaryIssue::GaugeDelta => error matches ActivityError::GaugeDeltaTooLarge,
    }
}

/// Whether `summary` summarizes `s`: the process, the observation window,
/// CPU time, and every counter and gauge from the first to the last sample.
pub open spec fn summarizes(summary: ActivitySummary, s: Seq<ActivitySample>) -> bool {
    let first = s[0];
    let last = s.last();
    &&& summary.schema_version == 1
    &&& summary.process_name@ == first.process_name@
    &&& summary.pid == first.pid
    &&& summary.samples == s.len()
    &&& summary.start_ns == first.start_ns
    &&& summary.end_ns == last.start_ns
    &&& summary.duration_ns == last.start_ns - first.start_ns
    &&& summary.cpu_start_ns == first.cpu_total_ns
    &&& summary.cpu_end_ns == last.cpu_total_ns
    &&& summary.cpu_delta_ns == last.cpu_total_ns - first.cpu_total_ns
    &&& summary.idle_wakeups == CounterSummary {
        start: first.idle_wakeups,
        end: last.idle_wakeups,
        delta: (last.idle_wakeups - first.idle_wakeups) as u64,
    }
    &&& Some(summary.physical_footprint_bytes) == spec_gauge(gauge_values(s, 0))
    &&& Some(summary.private_bytes) == spec_gauge(gauge_values(s, 1))
    &&& Some(summary.threads) == spec_gauge(gauge_values(s, 2))
    &&& Some(summary.ports) == spec_gauge(gauge_values(s, 3))
    &&& summary.bytes_read == CounterSummary {
        start: first.disk_bytes_read,
        end: last.disk_bytes_read,
        delta: (last.disk_bytes_read - first.disk_bytes_read) as u64,
    }
    &&& summary.bytes_written == CounterSummary {
        start: first.disk_bytes_written,
        end: last.disk_bytes_written,
        delta: (last.disk_bytes_written - first.disk_bytes_written) as u64,
    }
}

/// One gauge's values.
fn gauge_of(samples: &[ActivitySample], which: u8) -> (values: Vec<u64>)
    ensures
        values@ == gauge_values(samples@, which as int),
{
    let mut values: Vec<u64> = Vec::new();
    let mut i: usize = 0;
    while i < samples.len()
        invariant
            i <= samples@.len(),
            values@ == gauge_values(samples@.take(i as int), which as int),
        decreases samples@.len() - i,
    {
        let x = &samples[i];
        let v = if which == 0 {
            x.physical_footprint_bytes
        } else if which == 1 {
            x.private_bytes
        } else if which == 2 {
            x.thread_count
        } else {
            x.port_count
        };
        values.push(v);
        assert(values@ =~= gauge_values(samples@.take(i + 1), which as int));
        i += 1;
    }
    assert(samples@.take(samples@.len() as int) =~= samples@);
    values
}

proof fn lemma_increasing(s: Seq<ActivitySample>, i: int)
    requires
        increasing(s),
        0 <= i < s.len(),
    ensures
        s[0].start_ns <= s[i].start_ns,
    decreases i,
{
    if i > 0 {
        lemma_increasing(s, i - 1);
        assert(step_up(s, i - 1));
    }
}

/// Summarizes the samples of one process.
pub fn summarize_samples(samples: &[ActivitySample]) -> (summary: Result<ActivitySummary, ActivityError>)
    ensures
        match summary_issue(samples@) {
            None => summary matches Ok(s) && summarizes(s, samples@),
            Some(issue) => summary matches Err(e) && reports_summary(e, issue),
        },
{
    let n = samples.len();
    if n < 2 {
        return Err(ActivityError::NotEnoughSamples { found: n });
    }
    let first = &samples[0];
    let last = &samples[n - 1];
    let mut i: usize = 0;
    while i < n
        invariant
            n == samples@.len(),
            n >= 2,
            i <= n,
            *first == samples@[0],
            forall|j: int|
                0 <= j < i ==> (#[trigger] samples@[j]).pid == samples@[0].pid && samples@[j].process_name@
                    == samples@[0].process_name@,
        decreases n - i,
    {
        let (_, same) = compare_text(samples[i].process_name.as_str(), first.process_name.as_str());
        if samples[i].pid != first.pid || !same {
            assert(!one_process(samples@)) by {
                assert(samples@[i as int].pid != samples@[0].pid || samples@[i as int].process_name@
                    != samples@[0].process_name@);
            }
            return Err(ActivityError::MultipleProcesses);
        }
        i += 1;
    }
    assert(one_process(samples@));
    let mut k: usize = 0;
    while k + 1 < n
        invariant
            n == samples@.len(),
            n >= 2,
            one_process(samples@),
            k + 1 <= n,
            forall|j: int| 0 <= j < k ==> #[trigger] step_up(samples@, j),
        decreases n - k,
    {
        if samples[k].start_ns >= samples[k + 1].start_ns {
            assert(!step_up(samples@, k as int));
            return Err(ActivityError::TimesNotIncreasing);
        }
        k += 1;
    }
    proof {
        lemma_increasing(samples@, n - 1);
    }
    let duration_ns = last.start_ns - first.start_ns;
    let cpu_delta_ns = monotonic_delta(first.cpu_total_ns, last.cpu_total_ns, "CPU time")?;
    let idle_wakeups = counter_summary(first.idle_wakeups, last.idle_wakeups, "idle wakeups")?;
    let physical = gauge_summary(gauge_of(samples, 0).as_slice())?;
    let private = gauge_summary(gauge_of(samples, 1).as_slice())?;
    let threads = gauge_summary(gauge_of(samples, 2).as_slice())?;
    let ports = gauge_summary(gauge_of(samples, 3).as_slice())?;
    let bytes_read = counter_summary(first.disk_bytes_read, last.disk_bytes_read, "disk bytes read")?;
    let bytes_written = counter_summary(
        first.disk_bytes_written,
        last.disk_bytes_written,
        "disk bytes written",
    )?;
    Ok(
        ActivitySummary {
            schema_version: 1,
            process_name: first.process_name.clone(),
            pid: first.pid,
            samples: n,
            start_ns: first.start_ns,
            end_ns: last.start_ns,
            duration_ns,
            cpu_start_ns: first.cpu_total_ns,
            cpu_end_ns: last.cpu_total_ns,
            cpu_delta_ns,
            idle_wakeups,
            physical_footprint_bytes: physical,
            private_bytes: private,
            threads,
            ports,
            bytes_read,
            bytes_written,
        },
    )
}

/// The `row` children among `kids`, in order.
pub open spec fn row_elements(doc: &Document, kids: Seq<int>) -> Seq<int> {
    kids.filter(|k: int| doc.elements@[k].name@ == "row"@)
}

/// The first of `rows[..n]` that cannot be read, with why.
pub open spec fn rows_issue(
    doc: &Document,
    rows: Seq<int>,
    cols: Seq<Seq<char>>,
    table: Seq<(Seq<char>, int)>,
    n: int,
) -> Option<SampleIssue>
    decreases n,
{
    if n <= 0 {
        None
    } else {
        match rows_issue(doc, rows, cols, table, n - 1) {
            Some(i) => Some(i),
            None => sample_issue(doc, rows[n - 1], cols, table),
        }
    }
}

/// Whether `samples` are what `rows` say, row by row.
pub open spec fn reads_rows(
    samples: Seq<ActivitySample>,
    doc: &Document,
    rows: Seq<int>,
    cols: Seq<Seq<char>>,
    table: Seq<(Seq<char>, int)>,
) -> bool {
    &&& samples.len() == rows.len()
    &&& forall|i: int| 0 <= i < rows.len() ==> reads_row(#[trigger] samples[i], doc, rows[i], cols, table)
}

/// Whether `summary` is the outcome of summarizing samples read from
/// `rows`: the first unreadable row's error, or the summary of the samples.
pub open spec fn summarizes_rows(
    summary: Result<ActivitySummary, ActivityError>,
    doc: &Document,
    rows: Seq<int>,
    cols: Seq<Seq<char>>,
    table: Seq<(Seq<char>, int)>,
) -> bool {
    match rows_issue(doc, rows, cols, table, rows.len() as int) {
        Some(issue) => summary matches Err(e) && reports_sample(e, issue),
        None => exists|samples: Seq<ActivitySample>|
            #![trigger reads_rows(samples, doc, rows, cols, table)]
            reads_rows(samples, doc, rows, cols, table) && match summary_issue(samples) {
                None => summary matches Ok(s) && summarizes(s, samples),
                Some(issue) => summary matches Err(e) && reports_summary(e, issue),
            },
    }
}

proof fn lemma_row_step(doc: &Document, kids: Seq<int>, k: int)
    requires
        0 <= k < kids.len(),
    ensures
        row_elements(doc, kids.take(k + 1)) == if doc.elements@[kids[k]].name@ == "row"@ {
            row_elements(doc, kids.take(k)).push(kids[k])
        } else {
            row_elements(doc, kids.take(k))
        },
{
    reveal_with_fuel(Seq::filter, 1);
    assert(kids.take(k + 1).drop_last() =~= kids.take(k));
}

proof fn lemma_id_table_in_bounds(doc: &Document, n: int)
    requires
        0 <= n <= doc.elements@.len(),
    ensures
        id_table(doc, n) matches Ok(t) ==> table_in_bounds(doc, t),
    decreases n,
{
    if n > 0 {
        lemma_id_table_in_bounds(doc, n - 1);
    }
}

proof fn lemma_rows_issue_stable(
    doc: &Document,
    rows: Seq<int>,
    cols: Seq<Seq<char>>,
    table: Seq<(Seq<char>, int)>,
    n: int,
    m: int,
)
    requires
        0 <= n <= m,
        rows_issue(doc, rows, cols, table, n) is Some,
    ensures
        rows_issue(doc, rows, cols, table, m) == rows_issue(doc, rows, cols, table, n),
    decreases m - n,
{
    if n < m {
        lemma_rows_issue_stable(doc, rows, cols, table, n, m - 1);
    }
}

proof fn lemma_rows_issue_prefix(
    doc: &Document,
    rows: Seq<int>,
    prefix: Seq<int>,
    cols: Seq<Seq<char>>,
    table: Seq<(Seq<char>, int)>,
    n: int,
)
    requires
        0 <= n <= prefix.len() <= rows.len(),
        rows.subrange(0, prefix.len() as int) == prefix,
    ensures
        rows_issue(doc, rows, cols, table, n) == rows_issue(doc, prefix, cols, table, n),
    decreases n,
{
    if n > 0 {
        lemma_rows_issue_prefix(doc, rows, prefix, cols, table, n - 1);
        assert(rows[n - 1] == prefix[n - 1]);
    }
}

proof fn lemma_row_prefix(doc: &Document, all: Seq<int>, k: int)
    requires
        0 <= k <= all.len(),
    ensures
        row_elements(doc, all.take(k)).len() <= row_elements(doc, all).len(),
        row_elements(doc, all).subrange(0, row_elements(doc, all.take(k)).len() as int)
            == row_elements(doc, all.take(k)),
    decreases all.len() - k,
{
    if k == all.len() {
        assert(all.take(k) =~= all);
        assert(row_elements(doc, all).subrange(0, row_elements(doc, all).len() as int) =~= row_elements(
            doc,
            all,
        ));
    } else {
        lemma_row_prefix(doc, all, k + 1);
        lemma_row_step(doc, all, k);
        let small = row_elements(doc, all.take(k));
        let big = row_elements(doc, all.take(k + 1));
        let full = row_elements(doc, all);
        assert(big.subrange(0, small.len() as int) =~= small);
        assert(full.subrange(0, small.len() as int) =~= full.subrange(0, big.len() as int).subrange(
            0,
            small.len() as int,
        ));
    }
}

/// Reads the `row` children of the Activity Monitor node `node` into
/// samples, in order, and summarizes them.
pub fn summarize_rows(doc: &Document, node: usize, columns: &Vec<String>, ids: &Vec<(String, usize)>) -> (summary:
    Result<ActivitySummary, ActivityError>)
    requires
        lookup_ready(doc, columns@, ids@),
    ensures
        summarizes_rows(
            summary,
            doc,
            row_elements(doc, children(doc, node as int)),
            views(columns@),
            table_view(ids@),
        ),
{
    let ghost cols = views(columns@);
    let ghost table = table_view(ids@);
    let ghost all = children(doc, node as int);
    let ghost rows = row_elements(doc, all);
    let kids = children_of(doc, node);
    let mut samples: Vec<ActivitySample> = Vec::new();
    let mut k: usize = 0;
    proof {
        reveal_with_fuel(Seq::filter, 1);
        assert(row_elements(doc, all.take(0)) =~= Seq::<int>::empty());
    }
    while k < kids.len()
        invariant
            lookup_ready(doc, columns@, ids@),
            cols == views(columns@),
            table == table_view(ids@),
            all == children(doc, node as int),
            rows == row_elements(doc, all),
            k <= kids@.len(),
            kids@.len() == all.len(),
            forall|m: int| 0 <= m < kids@.len() ==> kids@[m] as int == #[trigger] all[m],
            forall|m: int| 0 <= m < kids@.len() ==> #[trigger] kids@[m] < doc.elements@.len(),
            samples@.len() == row_elements(doc, all.take(k as int)).len(),
            rows_issue(
                doc,
                row_elements(doc, all.take(k as int)),
                cols,
                table,
                samples@.len() as int,
            ) is None,
            forall|i: int|
                0 <= i < samples@.len() ==> reads_row(
                    #[trigger] samples@[i],
                    doc,
                    row_elements(doc, all.take(k as int))[i],
                    cols,
                    table,
                ),
        decreases kids@.len() - k,
    {
        let c = kids[k];
        let ghost before = row_elements(doc, all.take(k as int));
        proof {
            lemma_row_step(doc, all, k as int);
        }
        let (_, is_row) = compare_text(doc.elements[c].name.as_str(), "row");
        if is_row {
            let ghost now = row_elements(doc, all.take(k + 1));
            assert(now == before.push(c as int));
            assert(now.subrange(0, before.len() as int) =~= before);
            proof {
                lemma_rows_issue_prefix(doc, now, before, cols, table, before.len() as int);
            }
            match parse_sample(doc, c, columns, ids) {
                Ok(sample) => {
                    let ghost old_samples = samples@;
                    samples.push(sample);
                    assert forall|i: int| 0 <= i < samples@.len() implies reads_row(
                        #[trigger] samples@[i],
                        doc,
                        now[i],
                        cols,
                        table,
                    ) by {
                        if i < old_samples.len() {
                            assert(samples@[i] == old_samples[i]);
                            assert(now[i] == before[i]);
                        }
                    }
                },
                Err(e) => {
                    proof {
                        assert(rows_issue(doc, now, cols, table, now.len() as int) is Some);
                        lemma_row_prefix(doc, all, k + 1);
                        lemma_rows_issue_prefix(doc, rows, now, cols, table, now.len() as int);
                        lemma_rows_issue_stable(doc, rows, cols, table, now.len() as int, rows.len() as int);
                    }
                    return Err(e);
                },
            }
        }
        k += 1;
    }
    proof {
        assert(all.take(kids@.len() as int) =~= all);
        assert(reads_rows(samples@, doc, rows, cols, table));
    }
    summarize_samples(samples.as_slice())
}

/// What summarizing document `doc` gives: no node of the schema, a column
/// problem, a repeated id, or the outcome of reading and summarizing the
/// node's rows.
pub open spec fn document_summary(doc: &Document, summary: Result<ActivitySummary, ActivityError>) -> bool {
    match activity_node(doc) {
        None => summary matches Err(ActivityError::NoActivityNode),
        Some(node) => {
            let schema = child(doc, node, "schema"@)->0;
            match schema_column_names(doc, schema) {
                Err(ColumnIssue::Missing) => summary matches Err(ActivityError::MissingMnemonic),
                Err(ColumnIssue::Duplicate(m)) => summary matches Err(
                    ActivityError::DuplicateColumn { mnemonic },
                ) && mnemonic@ == m,
                Ok(names) => if names.len() == 0 {
                    summary matches Err(ActivityError::NoColumns)
                } else {
                    match id_table(doc, doc.elements@.len() as int) {
                        Err(id) => summary matches Err(ActivityError::DuplicateId { id: i })
                            && i@ == id,
                        Ok(table) => summarizes_rows(
                            summary,
                            doc,
                            row_elements(doc, children(doc, node)),
                            names,
                            table,
                        ),
                    }
                },
            }
        },
    }
}

/// Summarizes an Activity Monitor document: the first node of the
/// `activity-monitor-process-live` schema, its columns, the document's ids,
/// and the node's rows.
pub fn summarize_document(doc: &Document) -> (summary: Result<ActivitySummary, ActivityError>)
    requires
        is_tree(doc),
    ensures
        document_summary(doc, summary),
{
    let (node, schema) = match find_activity_node(doc) {
        None => return Err(ActivityError::NoActivityNode),
        Some(found) => found,
    };
    let columns = schema_columns(doc, schema)?;
    let ids = collect_ids(doc)?;
    proof {
        lemma_id_table_in_bounds(doc, doc.elements@.len() as int);
    }
    summarize_rows(doc, node, &columns, &ids)
}

/// What summarizing `xml` gives: the reader's error when the text does not
/// read as a document, else what summarizing that document gives.
pub open spec fn xml_summary(xml: Seq<char>, summary: Result<ActivitySummary, ActivityError>) -> bool {
    match built_document(xml) {
        Err(e) => summary matches Err(ActivityError::Xml(x)) && error_view(x) == e,
        Ok((v, _)) => exists|doc: Document|
            is_tree(&doc) && doc_view(doc) == v && document_summary(&doc, summary),
    }
}

/// Summarizes rows exported from `xctrace`'s `activity-monitor-process-live`
/// schema. `xctrace` deduplicates values by replacing later elements with
/// `ref` attributes; these are resolved before the deltas are taken. The
/// summary is that of the document read from `xml`, or the reason it could
/// not be read.
pub fn summarize_activity_xml(xml: &str) -> (summary: Result<ActivitySummary, ActivityError>)
    ensures
        xml_summary(xml@, summary),
        summary matches Ok(s) ==> (built_document(xml@) matches Ok((v, _)) && exists|doc: Document|
            #![trigger doc_view(doc)]
            is_tree(&doc) && doc_view(doc) == v && summarized_structure(&doc, s)),
{
    let (doc, _root) = match parse_document(xml) {
        Ok(parsed) => parsed,
        Err(e) => return Err(ActivityError::Xml(e)),
    };
    let summary = summarize_document(&doc);
    proof {
        if summary is Ok {
            summarized_documents_are_well_formed(&doc, summary);
        }
    }
    summary
}

/// The text `u64::from_str` gives for a refusal.
pub open spec fn number_reason(reason: NumberError) -> Seq<char> {
    match reason {
        NumberError::Empty => "cannot parse integer from empty string"@,
        NumberError::InvalidDigit => "invalid digit found in string"@,
        NumberError::Overflow => "number too large to fit in target type"@,
    }
}

impl ActivityError {
    /// The text this error displays, each context before its cause.
    pub open spec fn spec_message(&self) -> Seq<char> {
        match self {
            ActivityError::Xml(e) => "parse Activity Monitor XML: "@ + e.spec_message(),
            ActivityError::NoActivityNode => "export does not contain the activity-monitor-process-live schema"@,
            ActivityError::MissingMnemonic => "Activity Monitor schema column has no mnemonic"@,
            ActivityError::DuplicateColumn { mnemonic } => "Activity Monitor schema contains duplicate column "@
                + mnemonic@,
            ActivityError::NoColumns => "Activity Monitor schema has no columns"@,
            ActivityError::DuplicateId { id } => "Activity Monitor export contains duplicate id "@ + id@,
            ActivityError::MissingColumn { mnemonic } => "Activity Monitor schema is missing "@ + mnemonic@,
            ActivityError::MissingValue { mnemonic } => "Activity Monitor row has no value for "@
                + mnemonic@,
            ActivityError::ReferenceCycle { mnemonic, id } => "resolve Activity Monitor value for "@
                + mnemonic@ + ": Activity Monitor export contains a reference cycle at "@ + id@,
            ActivityError::UnknownId { mnemonic, id } => "resolve Activity Monitor value for "@
                + mnemonic@ + ": Activity Monitor export references unknown id "@ + id@,
            ActivityError::Unavailable { mnemonic } => "Activity Monitor value for "@ + mnemonic@
                + " is unavailable"@,
            ActivityError::InvalidNumber { mnemonic, reason } => "parse Activity Monitor value for "@
                + mnemonic@ + ": "@ + number_reason(*reason),
            ActivityError::PidTooLarge => "Activity Monitor pid does not fit in u32"@,
            ActivityError::EmptyProcessName => "Activity Monitor process name is empty"@,
            ActivityError::NotEnoughSamples { found } => "Activity Monitor export needs at least two samples, found "@
                + decimal(*found as nat),
            ActivityError::MultipleProcesses => "Activity Monitor export contains more than one process"@,
            ActivityError::TimesNotIncreasing => "Activity Monitor sample times are not strictly increasing"@,
            ActivityError::CounterDecreased { name, start, end } => "Activity Monitor "@ + name@
                + " counter decreased from "@ + decimal(*start as nat) + " to "@ + decimal(*end as nat),
            ActivityError::GaugeDeltaTooLarge => "Activity Monitor gauge delta does not fit in i64"@,
        }
    }

    /// Renders the error, each context before its cause.
    pub fn message(&self) -> (text: String)
        ensures
            text@ == self.spec_message(),
    {
        let mut text = String::new();
        match self {
            ActivityError::Xml(e) => {
                push_str(&mut text, "parse Activity Monitor XML: ");
                let inner = e.message();
                push_str(&mut text, inner.as_str());
            },
            ActivityError::NoActivityNode => push_str(
                &mut text,
                "export does not contain the activity-monitor-process-live schema",
            ),
            ActivityError::MissingMnemonic => push_str(
                &mut text,
                "Activity Monitor schema column has no mnemonic",
            ),
            ActivityError::DuplicateColumn { mnemonic } => {
                push_str(&mut text, "Activity Monitor schema contains duplicate column ");
                push_str(&mut text, mnemonic.as_str());
            },
            ActivityError::NoColumns => push_str(&mut text, "Activity Monitor schema has no columns"),
            ActivityError::DuplicateId { id } => {
                push_str(&mut text, "Activity Monitor export contains duplicate id ");
                push_str(&mut text, id.as_str());
            },
            ActivityError::MissingColumn { mnemonic } => {
                push_str(&mut text, "Activity Monitor schema is missing ");
                push_str(&mut text, mnemonic.as_str());
            },
            ActivityError::MissingValue { mnemonic } => {
                push_str(&mut text, "Activity Monitor row has no value for ");
                push_str(&mut text, mnemonic.as_str());
            },
            ActivityError::ReferenceCycle { mnemonic, id } => {
                push_str(&mut text, "resolve Activity Monitor value for ");
                push_str(&mut text, mnemonic.as_str());
                push_str(&mut text, ": Activity Monitor export contains a reference cycle at ");
                push_str(&mut text, id.as_str());
            },
            ActivityError::UnknownId { mnemonic, id } => {
                push_str(&mut text, "resolve Activity Monitor value for ");
                push_str(&mut text, mnemonic.as_str());
                push_str(&mut text, ": Activity Monitor export references unknown id ");
                push_str(&mut text, id.as_str());
            },
            ActivityError::Unavailable { mnemonic } => {
                push_str(&mut text, "Activity Monitor value for ");
                push_str(&mut text, mnemonic.as_str());
                push_str(&mut text, " is unavailable");
            },
            ActivityError::InvalidNumber { mnemonic, reason } => {
                push_str(&mut text, "parse Activity Monitor value for ");
                push_str(&mut text, mnemonic.as_str());
                push_str(&mut text, ": ");
                match reason {
                    NumberError::Empty => push_str(&mut text, "cannot parse integer from empty string"),
                    NumberError::InvalidDigit => push_str(&mut text, "invalid digit found in string"),
                    NumberError::Overflow => push_str(&mut text, "number too large to fit in target type"),
                }
            },
            ActivityError::PidTooLarge => push_str(&mut text, "Activity Monitor pid does not fit in u32"),
            ActivityError::EmptyProcessName => push_str(&mut text, "Activity Monitor process name is empty"),
            ActivityError::NotEnoughSamples { found } => {
                push_str(&mut text, "Activity Monitor export needs at least two samples, found ");
                push_decimal(&mut text, *found as u64);
            },
            ActivityError::MultipleProcesses => push_str(
                &mut text,
                "Activity Monitor export contains more than one process",
            ),
            ActivityError::TimesNotIncreasing => push_str(
                &mut text,
                "Activity Monitor sample times are not strictly increasing",
            ),
            ActivityError::CounterDecreased { name, start, end } => {
                push_str(&mut text, "Activity Monitor ");
                push_str(&mut text, name.as_str());
                push_str(&mut text, " counter decreased from ");
                push_decimal(&mut text, *start);
                push_str(&mut text, " to ");
                push_decimal(&mut text, *end);
            },
            ActivityError::GaugeDeltaTooLarge => push_str(
                &mut text,
                "Activity Monitor gauge delta does not fit in i64",
            ),
        }
        assert(text@ =~= self.spec_message());
        text
    }
}

/// Column names that were read are one per column, not empty, and
/// distinct.
proof fn lemma_column_names_distinct(doc: &Document, cols: Seq<int>, n: int)
    requires
        0 <= n <= cols.len(),
    ensures
        column_names(doc, cols, n) matches Ok(names) ==> {
            &&& names.len() == n
            &&& forall|i: int| 0 <= i < names.len() ==> (#[trigger] names[i]).len() > 0
            &&& forall|i: int, j: int| 0 <= i < j < names.len() ==> names[i] != names[j]
        },
    decreases n,
{
    if n > 0 {
        lemma_column_names_distinct(doc, cols, n - 1);
        if let Ok(names) = column_names(doc, cols, n) {
            let earlier = column_names(doc, cols, n - 1)->Ok_0;
            let m = mnemonic(doc, cols[n - 1])->0;
            assert(names == earlier.push(m));
            assert(!earlier.contains(m));
            assert forall|i: int, j: int| 0 <= i < j < names.len() implies names[i] != names[j] by {
                if j == names.len() - 1 {
                    assert(names[i] == earlier[i]);
                }
            }
        }
    }
}

/// An id is found in a table with one more entry exactly when it is found
/// in the table or is the new entry's.
proof fn lemma_lookup_push(table: Seq<(Seq<char>, int)>, entry: (Seq<char>, int), id: Seq<char>)
    ensures
        lookup(table.push(entry), id) is Some <==> (lookup(table, id) is Some || entry.0 == id),
    decreases table.len(),
{
    let longer = table.push(entry);
    if table.len() == 0 {
        assert(longer.drop_first() =~= Seq::<(Seq<char>, int)>::empty());
    } else {
        assert(longer[0] == table[0]);
        assert(longer.drop_first() =~= table.drop_first().push(entry));
        lemma_lookup_push(table.drop_first(), entry, id);
    }
}

/// A table read without a repeated id holds the id of every element read,
/// and no two of those elements share an id.
proof fn lemma_id_table_distinct(doc: &Document, n: int)
    requires
        0 <= n,
    ensures
        id_table(doc, n) matches Ok(table) ==> {
            &&& forall|a: int|
                0 <= a < n && (#[trigger] attribute(doc, a, "id"@)) is Some ==> lookup(
                    table,
                    attribute(doc, a, "id"@)->0,
                ) is Some
            &&& forall|a: int, b: int|
                0 <= a < b < n && (#[trigger] attribute(doc, a, "id"@)) is Some && (#[trigger] attribute(
                    doc,
                    b,
                    "id"@,
                )) is Some ==> attribute(doc, a, "id"@)->0 != attribute(doc, b, "id"@)->0
        },
    decreases n,
{
    if n > 0 {
        lemma_id_table_distinct(doc, n - 1);
        if let Ok(table) = id_table(doc, n) {
            let earlier = id_table(doc, n - 1)->Ok_0;
            if let Some(id) = attribute(doc, n - 1, "id"@) {
                assert(lookup(earlier, id) is None);
                assert(table == earlier.push((id, n - 1)));
                assert forall|a: int|
                    0 <= a < n && (#[trigger] attribute(doc, a, "id"@)) is Some implies lookup(
                    table,
                    attribute(doc, a, "id"@)->0,
                ) is Some by {
                    lemma_lookup_push(earlier, (id, n - 1), attribute(doc, a, "id"@)->0);
                }
                assert forall|a: int, b: int|
                    0 <= a < b < n && (#[trigger] attribute(doc, a, "id"@)) is Some
                        && (#[trigger] attribute(doc, b, "id"@)) is Some implies attribute(
                    doc,
                    a,
                    "id"@,
                )->0 != attribute(doc, b, "id"@)->0 by {
                    if b == n - 1 {
                        assert(lookup(earlier, attribute(doc, a, "id"@)->0) is Some);
                    }
                }
            }
        }
    }
}

/// What a document that summarizes successfully is made of: a node of the
/// `activity-monitor-process-live` schema, whose columns (at least one)
/// have non-empty, distinct mnemonics; no `id` that repeats; rows that all
/// read (every reference followed resolves); and, read from them, at least
/// two samples of one process with strictly increasing start times, which
/// `summary` summarizes.
pub open spec fn summarized_structure(doc: &Document, summary: ActivitySummary) -> bool {
    &&& activity_node(doc) matches Some(node) && is_activity_node(doc, node) && {
        let schema = child(doc, node, "schema"@)->0;
        let rows = row_elements(doc, children(doc, node));
        schema_column_names(doc, schema) matches Ok(names) && {
            &&& names.len() > 0
            &&& names.len() == col_elements(doc, children(doc, schema)).len()
            &&& forall|i: int| 0 <= i < names.len() ==> (#[trigger] names[i]).len() > 0
            &&& forall|i: int, j: int| 0 <= i < j < names.len() ==> names[i] != names[j]
            &&& id_table(doc, doc.elements@.len() as int) matches Ok(table) && {
                &&& rows_issue(doc, rows, names, table, rows.len() as int) is None
                &&& exists|samples: Seq<ActivitySample>|
                    #![trigger reads_rows(samples, doc, rows, names, table)]
                    {
                        &&& reads_rows(samples, doc, rows, names, table)
                        &&& samples.len() >= 2
                        &&& one_process(samples)
                        &&& increasing(samples)
                        &&& summary_issue(samples) is None
                        &&& summarizes(summary, samples)
                        &&& follows_samples(summary, samples)
                    }
            }
        }
    }
    &&& forall|a: int, b: int|
        0 <= a < b < doc.elements@.len() && (#[trigger] attribute(doc, a, "id"@)) is Some
            && (#[trigger] attribute(doc, b, "id"@)) is Some ==> attribute(doc, a, "id"@)->0
            != attribute(doc, b, "id"@)->0
}

/// A successful summary of a document comes from a well-formed Activity
/// Monitor export: the document has the structure `summarized_structure`
/// describes. Any document without it summarizes to an error.
pub proof fn summarized_documents_are_well_formed(
    doc: &Document,
    summary: Result<ActivitySummary, ActivityError>,
)
    requires
        is_tree(doc),
        document_summary(doc, summary),
        summary is Ok,
    ensures
        summarized_structure(doc, summary->Ok_0),
{
    let n = doc.elements@.len() as int;
    lemma_activity_node_upto(doc, n);
    let node = activity_node(doc)->0;
    let schema = child(doc, node, "schema"@)->0;
    let cols = col_elements(doc, children(doc, schema));
    lemma_column_names_distinct(doc, cols, cols.len() as int);
    lemma_id_table_distinct(doc, n);
    let rows = row_elements(doc, children(doc, node));
    let names = schema_column_names(doc, schema)->Ok_0;
    let table = id_table(doc, n)->Ok_0;
    let samples = choose|samples: Seq<ActivitySample>|
        reads_rows(samples, doc, rows, names, table) && match summary_issue(samples) {
            None => summary matches Ok(s) && summarizes(s, samples),
            Some(issue) => summary matches Err(e) && reports_summary(e, issue),
        };
    summaries_follow_the_samples(summary->Ok_0, samples);
}

/// A successful summary of XML text comes from a well-formed Activity
/// Monitor export: the text reads as a document (one root, every element
/// closed), and that document has the structure `summarized_structure`
/// describes.
pub proof fn summarized_xml_is_well_formed(xml: Seq<char>, summary: ActivitySummary)
    requires
        xml_summary(xml, Ok(summary)),
    ensures
        built_document(xml) matches Ok((v, _)) && exists|doc: Document|
            #![trigger doc_view(doc)]
            is_tree(&doc) && doc_view(doc) == v && summarized_structure(&doc, summary),
{
    let v = built_document(xml)->Ok_0.0;
    let doc = choose|doc: Document|
        is_tree(&doc) && doc_view(doc) == v && document_summary(&doc, Ok(summary));
    summarized_documents_are_well_formed(&doc, Ok(summary));
}

/// The smallest and the largest of some values are among them, and bound
/// every one of them.
proof fn lemma_extremes(values: Seq<u64>)
    requires
        values.len() > 0,
    ensures
        forall|i: int| 0 <= i < values.len() ==> seq_min(values) <= #[trigger] values[i] <= seq_max(values),
        exists|i: int| 0 <= i < values.len() && values[i] == seq_min(values),
        exists|j: int| 0 <= j < values.len() && values[j] == seq_max(values),
    decreases values.len(),
{
    if values.len() == 1 {
        assert(values[0] == seq_min(values));
        assert(values[0] == seq_max(values));
    } else {
        let rest = values.drop_last();
        lemma_extremes(rest);
        assert forall|i: int| 0 <= i < values.len() implies seq_min(values) <= #[trigger] values[i]
            <= seq_max(values) by {
            if i < rest.len() {
                assert(values[i] == rest[i]);
            }
        }
        let a = choose|i: int| 0 <= i < rest.len() && rest[i] == seq_min(rest);
        let b = choose|j: int| 0 <= j < rest.len() && rest[j] == seq_max(rest);
        if values.last() < seq_min(rest) {
            assert(values[values.len() - 1] == seq_min(values));
        } else {
            assert(values[a] == seq_min(values));
        }
        if values.last() > seq_max(rest) {
            assert(values[values.len() - 1] == seq_max(values));
        } else {
            assert(values[b] == seq_max(values));
        }
    }
}

/// Whether gauge `g` spans `values`: it runs from the first value to the
/// last, its delta is their signed difference, and its minimum and maximum
/// are the smallest and the largest of the values.
pub open spec fn spans(g: GaugeSummary, values: Seq<u64>) -> bool {
    &&& g.start == values[0]
    &&& g.end == values.last()
    &&& g.delta == values.last() - values[0]
    &&& forall|i: int| 0 <= i < values.len() ==> g.min <= #[trigger] values[i] <= g.max
    &&& exists|i: int| 0 <= i < values.len() && values[i] == g.min
    &&& exists|j: int| 0 <= j < values.len() && values[j] == g.max
}

/// A gauge spans the values it summarizes.
pub proof fn gauges_span_their_values(values: Seq<u64>)
    requires
        values.len() > 0,
        spec_gauge(values) is Some,
    ensures
        spans(spec_gauge(values)->0, values),
{
    lemma_extremes(values);
}

/// Whether `summary` follows `samples` row by row: each gauge spans its
/// values, each counter ends no lower than it started and its delta is the
/// difference, and the window and sample count are the samples'.
pub open spec fn follows_samples(summary: ActivitySummary, samples: Seq<ActivitySample>) -> bool {
    &&& spans(summary.physical_footprint_bytes, gauge_values(samples, 0))
    &&& spans(summary.private_bytes, gauge_values(samples, 1))
    &&& spans(summary.threads, gauge_values(samples, 2))
    &&& spans(summary.ports, gauge_values(samples, 3))
    &&& forall|i: int|
        0 <= i < samples.len() ==> gauge_values(samples, 2)[i] == (#[trigger] samples[i]).thread_count
            && gauge_values(samples, 3)[i] == samples[i].port_count && gauge_values(samples, 0)[i]
            == samples[i].physical_footprint_bytes && gauge_values(samples, 1)[i]
            == samples[i].private_bytes
    &&& summary.samples == samples.len()
    &&& summary.duration_ns == samples.last().start_ns - samples[0].start_ns
    &&& summary.idle_wakeups.start <= summary.idle_wakeups.end
    &&& summary.bytes_read.start <= summary.bytes_read.end
    &&& summary.bytes_written.start <= summary.bytes_written.end
    &&& summary.idle_wakeups.delta == summary.idle_wakeups.end - summary.idle_wakeups.start
    &&& summary.bytes_read.delta == summary.bytes_read.end - summary.bytes_read.start
    &&& summary.bytes_written.delta == summary.bytes_written.end - summary.bytes_written.start
    &&& summary.cpu_delta_ns == summary.cpu_end_ns - summary.cpu_start_ns
}

/// The gauges of a summary span the samples' values, in row order: memory
/// footprint, private bytes, threads and ports each run from the first
/// sample to the last, and their minimum and maximum are the smallest and
/// largest the samples report; each counter ends no lower than it started,
/// its delta is its last value minus its first, and the window runs from the first sample's start to the
/// last one's.
pub proof fn summaries_follow_the_samples(summary: ActivitySummary, samples: Seq<ActivitySample>)
    requires
        summary_issue(samples) is None,
        summarizes(summary, samples),
    ensures
        follows_samples(summary, samples),
{
    gauges_span_their_values(gauge_values(samples, 0));
    gauges_span_their_values(gauge_values(samples, 1));
    gauges_span_their_values(gauge_values(samples, 2));
    gauges_span_their_values(gauge_values(samples, 3));
}

} // verus!
