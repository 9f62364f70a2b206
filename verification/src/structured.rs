//! The diff of key-identified records: tables, servers, variables and the
//! like, where a record is found again by its key and compared field by field.

use crate::text::{lemma_position_is, lemma_position_none, lemma_position_of, position_of, texts};
use vstd::prelude::*;

verus! {

/// One record of a set, reduced to what the diff reads: the key by which it
/// is found again and the fields that are compared.
#[derive(Debug, Clone)]
pub struct Row {
    pub key: String,
    pub fields: Vec<String>,
}

/// The mathematical value of a [`Row`].
pub struct RowView {
    pub key: Seq<char>,
    pub fields: Seq<Seq<char>>,
}

impl View for Row {
    type V = RowView;

    open spec fn view(&self) -> RowView {
        RowView { key: self.key@, fields: texts(self.fields@) }
    }
}

/// The values of the rows of a record set, in order.
pub open spec fn row_views(rows: Seq<Row>) -> Seq<RowView> {
    Seq::new(rows.len(), |i: int| rows[i]@)
}

/// The keys of the rows of a record set, in order.
pub open spec fn row_keys(rows: Seq<RowView>) -> Seq<Seq<char>> {
    Seq::new(rows.len(), |i: int| rows[i].key)
}

/// A record set as a map from key to fields. A set holds at most one record
/// for a key; where a sequence of rows holds more, the first one counts.
pub open spec fn record_map(rows: Seq<RowView>) -> Map<Seq<char>, Seq<Seq<char>>> {
    Map::new(
        |key: Seq<char>| position_of(row_keys(rows), key) is Some,
        |key: Seq<char>| rows[position_of(row_keys(rows), key)->0].fields,
    )
}

/// What became of a record between two captures.
#[derive(Debug, Clone, Copy, PartialEq, Eq, Structural)]
pub enum ChangeKind {
    /// The key is in the end set only.
    Added,
    /// The key is in the begin set only.
    Removed,
    /// The key is in both sets and some field differs.
    Changed,
}

/// One row of a diff: a key, what became of its record, and the fields on
/// either side. The side on which the key is missing has no fields.
#[derive(Debug, Clone)]
pub struct RowChange {
    pub key: String,
    pub kind: ChangeKind,
    pub begin: Vec<String>,
    pub end: Vec<String>,
}

/// The mathematical value of a [`RowChange`].
pub struct RowChangeView {
    pub key: Seq<char>,
    pub kind: ChangeKind,
    pub begin: Seq<Seq<char>>,
    pub end: Seq<Seq<char>>,
}

impl View for RowChange {
    type V = RowChangeView;

    open spec fn view(&self) -> RowChangeView {
        RowChangeView {
            key: self.key@,
            kind: self.kind,
            begin: texts(self.begin@),
            end: texts(self.end@),
        }
    }
}

/// The values of the rows of a diff, in order.
pub open spec fn change_views(changes: Seq<RowChange>) -> Seq<RowChangeView> {
    Seq::new(changes.len(), |i: int| changes[i]@)
}

/// The row that the diff of `begin` and `end` holds for `key`; `None` where
/// neither set holds the key or both hold it with the same fields.
pub open spec fn change_of(
    begin: Map<Seq<char>, Seq<Seq<char>>>,
    end: Map<Seq<char>, Seq<Seq<char>>>,
    key: Seq<char>,
) -> Option<RowChangeView> {
    if end.dom().contains(key) {
        if !begin.dom().contains(key) {
            Some(RowChangeView { key, kind: ChangeKind::Added, begin: Seq::empty(), end: end[key] })
        } else if begin[key] != end[key] {
            Some(RowChangeView { key, kind: ChangeKind::Changed, begin: begin[key], end: end[key] })
        } else {
            None
        }
    } else if begin.dom().contains(key) {
        Some(RowChangeView { key, kind: ChangeKind::Removed, begin: begin[key], end: Seq::empty() })
    } else {
        None
    }
}

/// Whether `changes` holds a row for `key`.
pub open spec fn reports(changes: Seq<RowChangeView>, key: Seq<char>) -> bool {
    exists|k: int| 0 <= k < changes.len() && (#[trigger] changes[k]).key == key
}

/// Whether `changes` is the diff of the record sets `begin` and `end`: each
/// of its rows is the row that the diff holds for its key, no key has two
/// rows, and no key for which the diff holds a row is left out.
pub open spec fn is_diff(
    changes: Seq<RowChangeView>,
    begin: Map<Seq<char>, Seq<Seq<char>>>,
    end: Map<Seq<char>, Seq<Seq<char>>>,
) -> bool {
    &&& forall|k: int|
        0 <= k < changes.len() ==> change_of(begin, end, (#[trigger] changes[k]).key) == Some(
            changes[k],
        )
    &&& forall|k: int, l: int|
        0 <= k < l < changes.len() ==> (#[trigger] changes[k]).key != (#[trigger] changes[l]).key
    &&& forall|key: Seq<char>| #[trigger]
        change_of(begin, end, key) is Some ==> reports(changes, key)
}

/// The place of a key in the report of a diff: the keys of the end set come
/// first, in the order of the end set, and after them the keys that only the
/// begin set holds, in the order of the begin set.
pub open spec fn report_rank(begin: Seq<RowView>, end: Seq<RowView>, key: Seq<char>) -> int {
    match position_of(row_keys(end), key) {
        Some(place) => place,
        None => end.len() + position_of(row_keys(begin), key)->0,
    }
}

/// Whether the rows of a diff stand in the order of their places in the
/// report.
pub open spec fn in_report_order(
    changes: Seq<RowChangeView>,
    begin: Seq<RowView>,
    end: Seq<RowView>,
) -> bool {
    forall|k: int, l: int|
        0 <= k < l < changes.len() ==> report_rank(begin, end, (#[trigger] changes[k]).key)
            < report_rank(begin, end, (#[trigger] changes[l]).key)
}

/// Finds the first row of `rows` whose key is `key`.
pub fn find_row(rows: &Vec<Row>, key: &str) -> (r: Option<usize>)
    ensures
        match r {
            Some(i) => i < rows.len() && position_of(row_keys(row_views(rows@)), key@) == Some(
                i as int,
            ),
            None => position_of(row_keys(row_views(rows@)), key@) is None,
        },
{
    let ghost keys = row_keys(row_views(rows@));
    let mut i: usize = 0;
    while i < rows.len()
        invariant
            i <= rows.len(),
            keys == row_keys(row_views(rows@)),
            forall|j: int| 0 <= j < i ==> keys[j] != key@,
        decreases rows.len() - i,
    {
        if crate::text::str_equal(rows[i].key.as_str(), key) {
            proof {
                assert(keys[i as int] == key@);
                lemma_position_is(keys, key@, i as int);
            }
            return Some(i);
        }
        i = i + 1;
    }
    proof {
        lemma_position_none(keys, key@);
    }
    None
}

/// Tells whether two lists of fields hold the same texts.
pub fn same_fields(a: &Vec<String>, b: &Vec<String>) -> (same: bool)
    ensures
        same == (texts(a@) == texts(b@)),
{
    if a.len() != b.len() {
        assert(texts(a@).len() != texts(b@).len());
        return false;
    }
    let mut i: usize = 0;
    while i < a.len()
        invariant
            a.len() == b.len(),
            i <= a.len(),
            forall|j: int| 0 <= j < i ==> texts(a@)[j] == texts(b@)[j],
        decreases a.len() - i,
    {
        if a[i] != b[i] {
            assert(texts(a@)[i as int] != texts(b@)[i as int]);
            return false;
        }
        i = i + 1;
    }
    assert(texts(a@) =~= texts(b@));
    true
}

/// Copies a list of texts.
pub fn copy_texts(list: &Vec<String>) -> (copy: Vec<String>)
    ensures
        texts(copy@) == texts(list@),
{
    let mut copy: Vec<String> = Vec::new();
    let mut i: usize = 0;
    while i < list.len()
        invariant
            i <= list.len(),
            texts(copy@) == texts(list@).take(i as int),
        decreases list.len() - i,
    {
        copy.push(list[i].clone());
        assert(texts(copy@) == texts(list@).take(i as int).push(list[i as int]@));
        i = i + 1;
    }
    assert(texts(list@).take(i as int) == texts(list@));
    copy
}

proof fn lemma_reports_after_push(changes: Seq<RowChangeView>, change: RowChangeView, key: Seq<char>)
    requires
        reports(changes, key) || change.key == key,
    ensures
        reports(changes.push(change), key),
{
    let all = changes.push(change);
    if reports(changes, key) {
        let k = choose|k: int| 0 <= k < changes.len() && (#[trigger] changes[k]).key == key;
        assert(all[k].key == key);
    } else {
        assert(all[changes.len() as int].key == key);
    }
}

proof fn lemma_row_in_map(rows: Seq<RowView>, key: Seq<char>)
    ensures
        match position_of(row_keys(rows), key) {
            Some(i) => 0 <= i < rows.len() && rows[i].key == key && record_map(rows).dom().contains(
                key,
            ) && record_map(rows)[key] == rows[i].fields,
            None => !record_map(rows).dom().contains(key),
        },
{
    lemma_position_of(row_keys(rows), key);
}

/// Compares two record sets key by key.
///
/// A key that only `end` holds is reported as added, one that only `begin`
/// holds as removed, and one that both hold with different fields as changed,
/// with the fields of both sides. A key that both hold with the same fields is
/// not reported. The keys of `end` come first, in the order of `end`, and
/// after them the keys that were removed, in the order of `begin`.
pub fn diff_rows(begin: &Vec<Row>, end: &Vec<Row>) -> (changes: Vec<RowChange>)
    ensures
        is_diff(
            change_views(changes@),
            record_map(row_views(begin@)),
            record_map(row_views(end@)),
        ),
        in_report_order(change_views(changes@), row_views(begin@), row_views(end@)),
{
    let ghost b_rows = row_views(begin@);
    let ghost e_rows = row_views(end@);
    let ghost b = record_map(b_rows);
    let ghost e = record_map(e_rows);
    let mut changes: Vec<RowChange> = Vec::new();
    let mut j: usize = 0;
    while j < end.len()
        invariant
            j <= end.len(),
            b_rows == row_views(begin@),
            e_rows == row_views(end@),
            b == record_map(b_rows),
            e == record_map(e_rows),
            forall|k: int|
                0 <= k < changes.len() ==> change_of(b, e, (#[trigger] change_views(changes@)[k]).key)
                    == Some(change_views(changes@)[k]),
            forall|k: int, l: int|
                0 <= k < l < changes.len() ==> (#[trigger] change_views(changes@)[k]).key != (
                #[trigger] change_views(changes@)[l]).key,
            forall|k: int|
                0 <= k < changes.len() ==> exists|m: int|
                    0 <= m < j && (#[trigger] e_rows[m]).key == (#[trigger] change_views(
                        changes@,
                    )[k]).key,
            forall|m: int|
                0 <= m < j && change_of(b, e, (#[trigger] e_rows[m]).key) is Some ==> reports(
                    change_views(changes@),
                    e_rows[m].key,
                ),
            in_report_order(change_views(changes@), b_rows, e_rows),
        decreases end.len() - j,
    {
        let row = &end[j];
        let ghost key = row.key@;
        let ghost before = change_views(changes@);
        proof {
            lemma_row_in_map(e_rows, key);
            lemma_row_in_map(b_rows, key);
            assert(e_rows[j as int].key == key);
        }
        let first = find_row(end, row.key.as_str());
        let mut pushed: bool = false;
        if first == Some(j) {
            match find_row(begin, row.key.as_str()) {
                None => {
                    let blank: Vec<String> = Vec::new();
                    assert(texts(blank@) =~= Seq::<Seq<char>>::empty());
                    changes.push(
                        RowChange {
                            key: row.key.clone(),
                            kind: ChangeKind::Added,
                            begin: blank,
                            end: copy_texts(&row.fields),
                        },
                    );
                    pushed = true;
                },
                Some(i) => {
                    assert(b_rows[i as int].fields == texts(begin[i as int].fields@));
                    assert(e_rows[j as int].fields == texts(row.fields@));
                    if !same_fields(&begin[i].fields, &row.fields) {
                        changes.push(
                            RowChange {
                                key: row.key.clone(),
                                kind: ChangeKind::Changed,
                                begin: copy_texts(&begin[i].fields),
                                end: copy_texts(&row.fields),
                            },
                        );
                        pushed = true;
                    }
                },
            }
        }
        proof {
            let after = change_views(changes@);
            if pushed {
                let change = changes@.last()@;
                assert(after == before.push(change));
                assert(change.key == key);
                assert(change_of(b, e, key) == Some(change));
                lemma_position_of(row_keys(e_rows), key);
                assert forall|k: int, l: int| 0 <= k < l < after.len() implies (#[trigger] after[k]).key
                    != (#[trigger] after[l]).key by {
                    if l == after.len() - 1 {
                        let m = choose|m: int|
                            0 <= m < j && (#[trigger] e_rows[m]).key == (#[trigger] before[k]).key;
                        assert(row_keys(e_rows)[m] == e_rows[m].key);
                    }
                }
                assert forall|k: int| 0 <= k < after.len() implies exists|m: int|
                    0 <= m < j + 1 && (#[trigger] e_rows[m]).key == (#[trigger] after[k]).key by {
                    if k < before.len() {
                        let m = choose|m: int|
                            0 <= m < j && (#[trigger] e_rows[m]).key == (#[trigger] before[k]).key;
                        assert(e_rows[m].key == after[k].key);
                    } else {
                        assert(e_rows[j as int].key == after[k].key);
                    }
                }
                assert forall|k: int, l: int| 0 <= k < l < after.len() implies report_rank(
                    b_rows,
                    e_rows,
                    (#[trigger] after[k]).key,
                ) < report_rank(b_rows, e_rows, (#[trigger] after[l]).key) by {
                    if l == after.len() - 1 {
                        let m = choose|m: int|
                            0 <= m < j && (#[trigger] e_rows[m]).key == (#[trigger] before[k]).key;
                        assert(row_keys(e_rows)[m] == before[k].key);
                        lemma_position_of(row_keys(e_rows), before[k].key);
                    } else {
                        assert(after[k] == before[k] && after[l] == before[l]);
                    }
                }
                assert forall|m: int|
                    0 <= m < j + 1 && change_of(b, e, (#[trigger] e_rows[m]).key) is Some implies reports(
                    after,
                    e_rows[m].key,
                ) by {
                    lemma_reports_after_push(before, change, e_rows[m].key);
                }
            } else {
                assert(after == before);
                if change_of(b, e, key) is Some {
                    // The key stands earlier in the end set, where it was handled.
                    let p = position_of(row_keys(e_rows), key)->0;
                    lemma_position_of(row_keys(e_rows), key);
                    assert(row_keys(e_rows)[j as int] == key);
                    assert(p < j);
                    assert(e_rows[p].key == key);
                    assert(reports(before, e_rows[p].key));
                }
                assert forall|k: int| 0 <= k < after.len() implies exists|m: int|
                    0 <= m < j + 1 && (#[trigger] e_rows[m]).key == (#[trigger] after[k]).key by {
                    let m = choose|m: int|
                        0 <= m < j && (#[trigger] e_rows[m]).key == (#[trigger] before[k]).key;
                    assert(e_rows[m].key == after[k].key);
                }
            }
        }
        j = j + 1;
    }
    proof {
        let found = change_views(changes@);
        assert forall|k: int| 0 <= k < found.len() implies e.dom().contains(
            (#[trigger] found[k]).key,
        ) by {
            let m = choose|m: int| 0 <= m < j && (#[trigger] e_rows[m]).key == (#[trigger] found[k]).key;
            lemma_position_of(row_keys(e_rows), found[k].key);
            assert(row_keys(e_rows)[m] == found[k].key);
        }
        assert forall|key: Seq<char>|
            e.dom().contains(key) && (#[trigger] change_of(b, e, key)) is Some implies reports(
            found,
            key,
        ) by {
            lemma_row_in_map(e_rows, key);
            let p = position_of(row_keys(e_rows), key)->0;
            assert(e_rows[p].key == key);
        }
    }
    let mut i: usize = 0;
    while i < begin.len()
        invariant
            i <= begin.len(),
            b_rows == row_views(begin@),
            e_rows == row_views(end@),
            b == record_map(b_rows),
            e == record_map(e_rows),
            forall|k: int|
                0 <= k < changes.len() ==> change_of(b, e, (#[trigger] change_views(changes@)[k]).key)
                    == Some(change_views(changes@)[k]),
            forall|k: int, l: int|
                0 <= k < l < changes.len() ==> (#[trigger] change_views(changes@)[k]).key != (
                #[trigger] change_views(changes@)[l]).key,
            forall|k: int|
                0 <= k < changes.len() ==> e.dom().contains(
                    (#[trigger] change_views(changes@)[k]).key,
                ) || exists|m: int|
                    0 <= m < i && (#[trigger] b_rows[m]).key == change_views(changes@)[k].key,
            forall|key: Seq<char>|
                e.dom().contains(key) && (#[trigger] change_of(b, e, key)) is Some ==> reports(
                    change_views(changes@),
                    key,
                ),
            forall|m: int|
                0 <= m < i && change_of(b, e, (#[trigger] b_rows[m]).key) is Some ==> reports(
                    change_views(changes@),
                    b_rows[m].key,
                ),
            in_report_order(change_views(changes@), b_rows, e_rows),
        decreases begin.len() - i,
    {
        let row = &begin[i];
        let ghost key = row.key@;
        let ghost before = change_views(changes@);
        proof {
            lemma_row_in_map(e_rows, key);
            lemma_row_in_map(b_rows, key);
            assert(b_rows[i as int].key == key);
        }
        let first = find_row(begin, row.key.as_str());
        let mut pushed: bool = false;
        if first == Some(i) {
            if find_row(end, row.key.as_str()).is_none() {
                let blank: Vec<String> = Vec::new();
                assert(texts(blank@) =~= Seq::<Seq<char>>::empty());
                changes.push(
                    RowChange {
                        key: row.key.clone(),
                        kind: ChangeKind::Removed,
                        begin: copy_texts(&row.fields),
                        end: blank,
                    },
                );
                pushed = true;
            }
        }
        proof {
            let after = change_views(changes@);
            if pushed {
                let change = changes@.last()@;
                assert(after == before.push(change));
                assert(change.key == key);
                assert(change_of(b, e, key) == Some(change));
                lemma_position_of(row_keys(b_rows), key);
                assert forall|k: int, l: int| 0 <= k < l < after.len() implies (#[trigger] after[k]).key
                    != (#[trigger] after[l]).key by {
                    if l == after.len() - 1 {
                        if !e.dom().contains(before[k].key) {
                            let m = choose|m: int|
                                0 <= m < i && (#[trigger] b_rows[m]).key == before[k].key;
                            assert(row_keys(b_rows)[m] == b_rows[m].key);
                        }
                    }
                }
                assert forall|k: int| 0 <= k < after.len() implies e.dom().contains(
                    (#[trigger] after[k]).key,
                ) || exists|m: int| 0 <= m < i + 1 && (#[trigger] b_rows[m]).key == after[k].key by {
                    if k < before.len() {
                        if !e.dom().contains(before[k].key) {
                            let m = choose|m: int|
                                0 <= m < i && (#[trigger] b_rows[m]).key == before[k].key;
                            assert(b_rows[m].key == after[k].key);
                        }
                    } else {
                        assert(b_rows[i as int].key == after[k].key);
                    }
                }
                assert forall|key2: Seq<char>|
                    e.dom().contains(key2) && (#[trigger] change_of(b, e, key2)) is Some implies reports(
                    after,
                    key2,
                ) by {
                    lemma_reports_after_push(before, change, key2);
                }
                assert forall|k: int, l: int| 0 <= k < l < after.len() implies report_rank(
                    b_rows,
                    e_rows,
                    (#[trigger] after[k]).key,
                ) < report_rank(b_rows, e_rows, (#[trigger] after[l]).key) by {
                    if l == after.len() - 1 {
                        lemma_position_of(row_keys(e_rows), before[k].key);
                        if !e.dom().contains(before[k].key) {
                            let m = choose|m: int|
                                0 <= m < i && (#[trigger] b_rows[m]).key == before[k].key;
                            assert(row_keys(b_rows)[m] == before[k].key);
                            lemma_position_of(row_keys(b_rows), before[k].key);
                        }
                    } else {
                        assert(after[k] == before[k] && after[l] == before[l]);
                    }
                }
                assert forall|m: int|
                    0 <= m < i + 1 && change_of(b, e, (#[trigger] b_rows[m]).key) is Some implies reports(
                    after,
                    b_rows[m].key,
                ) by {
                    lemma_reports_after_push(before, change, b_rows[m].key);
                }
            } else {
                assert(after == before);
                if change_of(b, e, key) is Some && !e.dom().contains(key) {
                    let p = position_of(row_keys(b_rows), key)->0;
                    lemma_position_of(row_keys(b_rows), key);
                    assert(row_keys(b_rows)[i as int] == key);
                    assert(p < i);
                    assert(b_rows[p].key == key);
                    assert(reports(before, b_rows[p].key));
                }
                assert forall|k: int| 0 <= k < after.len() implies e.dom().contains(
                    (#[trigger] after[k]).key,
                ) || exists|m: int| 0 <= m < i + 1 && (#[trigger] b_rows[m]).key == after[k].key by {
                    if !e.dom().contains(before[k].key) {
                        let m = choose|m: int|
                            0 <= m < i && (#[trigger] b_rows[m]).key == before[k].key;
                        assert(b_rows[m].key == after[k].key);
                    }
                }
            }
        }
        i = i + 1;
    }
    proof {
        let all = change_views(changes@);
        assert forall|key: Seq<char>| #[trigger] change_of(b, e, key) is Some implies reports(
            all,
            key,
        ) by {
            if !e.dom().contains(key) {
                lemma_row_in_map(b_rows, key);
                let p = position_of(row_keys(b_rows), key)->0;
                assert(b_rows[p].key == key);
            }
        }
    }
    changes
}

/// A row of a diff seen from the other side: added for removed, removed for
/// added, and the fields of the two sides exchanged.
pub open spec fn mirrored(change: RowChangeView) -> RowChangeView {
    RowChangeView {
        key: change.key,
        kind: match change.kind {
            ChangeKind::Added => ChangeKind::Removed,
            ChangeKind::Removed => ChangeKind::Added,
            ChangeKind::Changed => ChangeKind::Changed,
        },
        begin: change.end,
        end: change.begin,
    }
}

/// The keys of the rows of a diff, in order.
pub open spec fn change_keys(changes: Seq<RowChangeView>) -> Seq<Seq<char>> {
    Seq::new(changes.len(), |k: int| changes[k].key)
}

/// The diff of a record set with itself is empty: nothing was added, removed
/// or changed.
pub proof fn lemma_diff_with_itself_is_empty(
    changes: Seq<RowChangeView>,
    records: Map<Seq<char>, Seq<Seq<char>>>,
)
    requires
        is_diff(changes, records, records),
    ensures
        changes.len() == 0,
{
    if changes.len() > 0 {
        assert(change_of(records, records, changes[0].key) == Some(changes[0]));
    }
}

/// With begin and end exchanged, the diff holds for each key the mirrored
/// row: what was added is removed, what was removed is added, and what was
/// changed is changed the other way round.
pub proof fn lemma_swapped_change(
    begin: Map<Seq<char>, Seq<Seq<char>>>,
    end: Map<Seq<char>, Seq<Seq<char>>>,
    key: Seq<char>,
)
    ensures
        change_of(end, begin, key) == match change_of(begin, end, key) {
            Some(change) => Some(mirrored(change)),
            None => None,
        },
{
}

/// The diff from `end` back to `begin` has as many rows as the diff from
/// `begin` to `end`, and holds the mirrored row of each of its rows.
pub proof fn lemma_swapped_diff(
    forward: Seq<RowChangeView>,
    backward: Seq<RowChangeView>,
    begin: Map<Seq<char>, Seq<Seq<char>>>,
    end: Map<Seq<char>, Seq<Seq<char>>>,
)
    requires
        is_diff(forward, begin, end),
        is_diff(backward, end, begin),
    ensures
        forward.len() == backward.len(),
        forall|k: int|
            0 <= k < forward.len() ==> exists|l: int|
                0 <= l < backward.len() && #[trigger] backward[l] == mirrored(
                    #[trigger] forward[k],
                ),
{
    assert forall|k: int| 0 <= k < forward.len() implies exists|l: int|
        0 <= l < backward.len() && #[trigger] backward[l] == mirrored(#[trigger] forward[k]) by {
        let key = forward[k].key;
        lemma_swapped_change(begin, end, key);
        assert(change_of(end, begin, key) is Some);
        let l = choose|l: int| 0 <= l < backward.len() && (#[trigger] backward[l]).key == key;
        assert(backward[l] == mirrored(forward[k]));
    }
    let forward_keys = change_keys(forward);
    let backward_keys = change_keys(backward);
    assert(forward_keys.no_duplicates());
    assert(backward_keys.no_duplicates());
    assert forall|key: Seq<char>| forward_keys.to_set().contains(key) implies backward_keys.to_set().contains(
        key,
    ) by {
        let k = choose|k: int| 0 <= k < forward_keys.len() && forward_keys[k] == key;
        assert(change_of(begin, end, forward[k].key) == Some(forward[k]));
        lemma_swapped_change(begin, end, key);
        assert(change_of(end, begin, key) is Some);
        let l = choose|l: int| 0 <= l < backward.len() && (#[trigger] backward[l]).key == key;
        assert(backward_keys[l] == key);
    }
    assert forall|key: Seq<char>| backward_keys.to_set().contains(key) implies forward_keys.to_set().contains(
        key,
    ) by {
        let l = choose|l: int| 0 <= l < backward_keys.len() && backward_keys[l] == key;
        assert(change_of(end, begin, backward[l].key) == Some(backward[l]));
        lemma_swapped_change(end, begin, key);
        assert(change_of(begin, end, key) is Some);
        let k = choose|k: int| 0 <= k < forward.len() && (#[trigger] forward[k]).key == key;
        assert(forward_keys[k] == key);
    }
    assert(forward_keys.to_set() =~= backward_keys.to_set());
    forward_keys.unique_seq_to_set();
    backward_keys.unique_seq_to_set();
}

} // verus!
