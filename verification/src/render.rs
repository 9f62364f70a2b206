//! Reports: the lines in which a diff or a catalog is shown. A filter narrows
//! what is shown and nothing else.

use crate::hostfilter::{hostname_matches, is_valid_filter, regex_matches, regex_valid};
use crate::metrics::{metric_diff_views, MetricDiff, MetricDiffView};
use crate::snapshot::{Catalog, CatalogEntry, CatalogEntryView};
use crate::structured::{change_views, ChangeKind, RowChange, RowChangeView};
use crate::text::{
    decimal_text, number_to_string, pad_left, pad_right, padded, padded_left, texts,
    thousandths_text, thousandths_to_string,
};
use crate::timestamp::{rfc3339_writing, timestamp_to_text};
use vstd::prelude::*;

verus! {

/// The fields of one side of a record, each after one space.
pub open spec fn fields_text(fields: Seq<Seq<char>>) -> Seq<char>
    decreases fields.len(),
{
    if fields.len() == 0 {
        Seq::empty()
    } else {
        fields_text(fields.drop_last()) + seq![' '] + fields.last()
    }
}

/// The line for one side of a record: a sign, the key in a column of twenty
/// characters, and the fields.
pub open spec fn side_line(sign: char, key: Seq<char>, fields: Seq<Seq<char>>) -> Seq<char> {
    seq![sign, ' '] + padded(key, 20) + fields_text(fields)
}

/// The lines for one row of a diff: a minus line with what the begin set
/// held, a plus line with what the end set holds, or both for a change.
pub open spec fn lines_of_change(change: RowChangeView) -> Seq<Seq<char>> {
    match change.kind {
        ChangeKind::Added => seq![side_line('+', change.key, change.end)],
        ChangeKind::Removed => seq![side_line('-', change.key, change.begin)],
        ChangeKind::Changed => seq![
            side_line('-', change.key, change.begin),
            side_line('+', change.key, change.end),
        ],
    }
}

/// The report of a diff under the filter `pattern`: the lines of each row
/// whose key passes, in the order of the rows.
pub open spec fn change_report(changes: Seq<RowChangeView>, pattern: Seq<char>) -> Seq<Seq<char>>
    decreases changes.len(),
{
    if changes.len() == 0 {
        Seq::empty()
    } else {
        change_report(changes.drop_last(), pattern) + if regex_matches(
            pattern,
            changes.last().key,
        ) {
            lines_of_change(changes.last())
        } else {
            Seq::empty()
        }
    }
}

fn side_to_line(sign: &str, key: &str, fields: &Vec<String>) -> (line: String)
    requires
        sign@.len() == 1,
    ensures
        line@ == side_line(sign@[0], key@, texts(fields@)),
{
    proof {
        reveal_strlit(" ");
        assert(" "@ == seq![' ']);
    }
    let mut line: String = String::from_str(sign);
    line.append(" ");
    line.append(pad_right(key, 20).as_str());
    let ghost head = line@;
    assert(head =~= seq![sign@[0], ' '] + padded(key@, 20));
    let mut i: usize = 0;
    assert(texts(fields@).take(0) == Seq::<Seq<char>>::empty());
    while i < fields.len()
        invariant
            i <= fields.len(),
            " "@ == seq![' '],
            line@ == head + fields_text(texts(fields@).take(i as int)),
        decreases fields.len() - i,
    {
        proof {
            assert(texts(fields@).take(i + 1).drop_last() == texts(fields@).take(i as int));
            assert(texts(fields@).take(i + 1).last() == fields[i as int]@);
        }
        line.append(" ");
        line.append(fields[i].as_str());
        i = i + 1;
    }
    assert(texts(fields@).take(i as int) == texts(fields@));
    line
}

/// Renders a diff of key-identified records, narrowed to the keys that pass
/// `hostname_filter`. `None` where `hostname_filter` is no regular
/// expression.
pub fn print_changes(changes: &Vec<RowChange>, hostname_filter: &str) -> (r: Option<Vec<String>>)
    ensures
        r is Some <==> regex_valid(hostname_filter@),
        r matches Some(lines) ==> texts(lines@) == change_report(
            change_views(changes@),
            hostname_filter@,
        ),
{
    if !is_valid_filter(hostname_filter) {
        return None;
    }
    let ghost views = change_views(changes@);
    let mut lines: Vec<String> = Vec::new();
    let mut i: usize = 0;
    assert(views.take(0) == Seq::<RowChangeView>::empty());
    assert(texts(lines@) == Seq::<Seq<char>>::empty());
    while i < changes.len()
        invariant
            i <= changes.len(),
            regex_valid(hostname_filter@),
            views == change_views(changes@),
            texts(lines@) == change_report(views.take(i as int), hostname_filter@),
        decreases changes.len() - i,
    {
        let change = &changes[i];
        let ghost shown = texts(lines@);
        proof {
            reveal_strlit("+");
            reveal_strlit("-");
            assert(views.take(i + 1).drop_last() == views.take(i as int));
            assert(views.take(i + 1).last() == change@);
        }
        let keep: bool = match hostname_matches(hostname_filter, change.key.as_str()) {
            Some(found) => found,
            None => false,
        };
        if keep {
            match change.kind {
                ChangeKind::Added => {
                    lines.push(side_to_line("+", change.key.as_str(), &change.end));
                    assert(texts(lines@) == shown + lines_of_change(change@));
                },
                ChangeKind::Removed => {
                    lines.push(side_to_line("-", change.key.as_str(), &change.begin));
                    assert(texts(lines@) == shown + lines_of_change(change@));
                },
                ChangeKind::Changed => {
                    lines.push(side_to_line("-", change.key.as_str(), &change.begin));
                    lines.push(side_to_line("+", change.key.as_str(), &change.end));
                    assert(texts(lines@) == shown + lines_of_change(change@));
                },
            }
        } else {
            assert(shown + Seq::<Seq<char>>::empty() == shown);
        }
        i = i + 1;
    }
    assert(views.take(i as int) == views);
    Some(lines)
}

/// The rate of a row as it is shown: the rate per second with three
/// decimals, in a column of fifteen characters, and nothing where the row has
/// no rate.
pub open spec fn rate_text(rate_milli: Option<int>) -> Seq<char> {
    match rate_milli {
        Some(rate) => seq![' '] + padded_left(thousandths_text(rate), 15) + seq![' ', '/', 's'],
        None => Seq::empty(),
    }
}

/// The line for one row of a metric diff: the node, the metric, the delta
/// and the rate.
pub open spec fn metric_line(row: MetricDiffView) -> Seq<char> {
    padded(row.hostname_port, 20) + seq![' '] + padded(row.metric, 40) + seq![' '] + padded_left(
        decimal_text(row.delta),
        15,
    ) + rate_text(row.rate_milli)
}

/// The report of a metric diff: the line of each row whose node passes
/// `hostname_pattern` and whose metric passes `stat_pattern`, in the order of
/// the rows.
pub open spec fn metric_report(
    rows: Seq<MetricDiffView>,
    hostname_pattern: Seq<char>,
    stat_pattern: Seq<char>,
) -> Seq<Seq<char>> {
    rows.filter(
        |row: MetricDiffView|
            regex_matches(hostname_pattern, row.hostname_port) && regex_matches(
                stat_pattern,
                row.metric,
            ),
    ).map_values(|row: MetricDiffView| metric_line(row))
}

fn metric_to_line(row: &MetricDiff) -> (line: String)
    ensures
        line@ == metric_line(row@),
{
    proof {
        reveal_strlit(" ");
        reveal_strlit(" /s");
        assert(" "@ == seq![' ']);
        assert(" /s"@ =~= seq![' ', '/', 's']);
    }
    let mut line: String = pad_right(row.hostname_port.as_str(), 20);
    line.append(" ");
    line.append(pad_right(row.metric.as_str(), 40).as_str());
    line.append(" ");
    line.append(pad_left(number_to_string(row.delta).as_str(), 15).as_str());
    match row.rate_milli {
        Some(rate) => {
            line.append(" ");
            line.append(pad_left(thousandths_to_string(rate).as_str(), 15).as_str());
            line.append(" /s");
        },
        None => {},
    }
    assert(line@ =~= metric_line(row@));
    line
}

/// Renders a metric diff, narrowed to the nodes that pass `hostname_filter`
/// and the metrics that pass `stat_name_filter`. `None` where one of the two
/// is no regular expression.
pub fn print_metric_diff(rows: &Vec<MetricDiff>, hostname_filter: &str, stat_name_filter: &str) -> (r:
    Option<Vec<String>>)
    ensures
        r is Some <==> regex_valid(hostname_filter@) && regex_valid(stat_name_filter@),
        r matches Some(lines) ==> texts(lines@) == metric_report(
            metric_diff_views(rows@),
            hostname_filter@,
            stat_name_filter@,
        ),
{
    if !is_valid_filter(hostname_filter) || !is_valid_filter(stat_name_filter) {
        return None;
    }
    let ghost views = metric_diff_views(rows@);
    let ghost passes = |row: MetricDiffView|
        regex_matches(hostname_filter@, row.hostname_port) && regex_matches(
            stat_name_filter@,
            row.metric,
        );
    let ghost line_of = |row: MetricDiffView| metric_line(row);
    let mut lines: Vec<String> = Vec::new();
    proof {
        reveal(Seq::filter);
        assert(views.take(0).filter(passes) == Seq::<MetricDiffView>::empty());
        assert(texts(lines@) == views.take(0).filter(passes).map_values(line_of));
    }
    let mut i: usize = 0;
    while i < rows.len()
        invariant
            i <= rows.len(),
            regex_valid(hostname_filter@),
            regex_valid(stat_name_filter@),
            views == metric_diff_views(rows@),
            passes == |row: MetricDiffView|
                regex_matches(hostname_filter@, row.hostname_port) && regex_matches(
                    stat_name_filter@,
                    row.metric,
                ),
            line_of == |row: MetricDiffView| metric_line(row),
            texts(lines@) == views.take(i as int).filter(passes).map_values(line_of),
        decreases rows.len() - i,
    {
        let row = &rows[i];
        let ghost before = views.take(i as int);
        let ghost shown = texts(lines@);
        proof {
            assert(views.take(i + 1) == before.push(row@));
            Seq::lemma_filter_push(before, row@, passes);
        }
        let host_passes: bool = match hostname_matches(hostname_filter, row.hostname_port.as_str()) {
            Some(found) => found,
            None => false,
        };
        let stat_passes: bool = match hostname_matches(stat_name_filter, row.metric.as_str()) {
            Some(found) => found,
            None => false,
        };
        if host_passes && stat_passes {
            lines.push(metric_to_line(row));
            proof {
                assert(texts(lines@) == shown.push(metric_line(row@)));
                assert(before.filter(passes).push(row@).map_values(line_of) == before.filter(
                    passes,
                ).map_values(line_of).push(metric_line(row@)));
            }
        }
        i = i + 1;
    }
    assert(views.take(i as int) == views);
    Some(lines)
}

/// The line of the catalog listing for one entry: the number in a column of
/// three characters, the time in one of thirty and the comment in one of
/// fifty; `None` where the time cannot be written.
pub open spec fn catalog_line(entry: CatalogEntryView) -> Option<Seq<char>> {
    match rfc3339_writing(entry.timestamp) {
        Some(time) => Some(
            padded_left(decimal_text(entry.number as int), 3) + seq![' '] + padded(time, 30)
                + seq![' '] + padded(entry.comment, 50),
        ),
        None => None,
    }
}

/// The listing of a catalog: one line for each entry, in order; `None` where
/// the time of an entry cannot be written.
pub open spec fn catalog_listing(entries: Seq<CatalogEntryView>) -> Option<Seq<Seq<char>>> {
    if forall|i: int| 0 <= i < entries.len() ==> (#[trigger] catalog_line(entries[i])) is Some {
        Some(Seq::new(entries.len(), |i: int| catalog_line(entries[i])->0))
    } else {
        None
    }
}

/// Renders the listing of a catalog.
pub fn print_catalog(catalog: &Catalog) -> (r: Option<Vec<String>>)
    ensures
        match r {
            Some(lines) => catalog_listing(catalog@) == Some(texts(lines@)),
            None => catalog_listing(catalog@) is None,
        },
{
    let entries: Vec<CatalogEntry> = catalog.list_snapshots();
    let ghost views = catalog@;
    let mut lines: Vec<String> = Vec::new();
    let mut i: usize = 0;
    while i < entries.len()
        invariant
            i <= entries.len(),
            views == catalog@,
            views == crate::snapshot::entry_views(entries@),
            lines.len() == i,
            forall|k: int| 0 <= k < i ==> (#[trigger] catalog_line(views[k])) == Some(lines[k]@),
        decreases entries.len() - i,
    {
        let entry = &entries[i];
        let time = match timestamp_to_text(entry.timestamp) {
            Some(time) => time,
            None => {
                assert(catalog_line(views[i as int]) is None);
                return None;
            },
        };
        proof {
            reveal_strlit(" ");
            assert(" "@ == seq![' ']);
        }
        let mut line: String = pad_left(number_to_string(entry.number as i128).as_str(), 3);
        line.append(" ");
        line.append(pad_right(time.as_str(), 30).as_str());
        line.append(" ");
        line.append(pad_right(entry.comment.as_str(), 50).as_str());
        assert(catalog_line(views[i as int]) == Some(line@)) by {
            assert(catalog_line(views[i as int])->0 =~= line@);
        }
        lines.push(line);
        i = i + 1;
    }
    assert(catalog_listing(views)->0 =~= texts(lines@));
    Some(lines)
}

} // verus!
