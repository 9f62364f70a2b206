use yb_stats::metrics::{
    diff_metrics, find_sample, metric_delta, metric_rate, MetricDiff, MetricSample,
};
use yb_stats::structured::{diff_rows, find_row, same_fields, ChangeKind, Row, RowChange};
use yb_stats::timestamp::Timestamp;

fn at(seconds: i64) -> Timestamp {
    Timestamp { seconds, nanos: 0, offset_seconds: 0 }
}

fn sample(host: &str, metric: &str, value: u64, gauge: bool, seconds: i64) -> MetricSample {
    MetricSample {
        hostname_port: host.to_string(),
        metric: metric.to_string(),
        value,
        gauge,
        timestamp: at(seconds),
    }
}

fn row(key: &str, fields: &[&str]) -> Row {
    Row { key: key.to_string(), fields: fields.iter().map(|f| f.to_string()).collect() }
}

fn by_key<'a>(changes: &'a [RowChange], key: &str) -> &'a RowChange {
    let found: Vec<&RowChange> = changes.iter().filter(|c| c.key == key).collect();
    assert_eq!(found.len(), 1);
    found[0]
}

fn by_metric<'a>(rows: &'a [MetricDiff], host: &str, metric: &str) -> &'a MetricDiff {
    let found: Vec<&MetricDiff> =
        rows.iter().filter(|r| r.hostname_port == host && r.metric == metric).collect();
    assert_eq!(found.len(), 1);
    found[0]
}

#[test]
fn counter_reset_reports_the_end_value() {
    let begin = vec![sample("h:9000", "rows_inserted", 100, false, 1000)];
    let end = vec![sample("h:9000", "rows_inserted", 10, false, 1060)];
    let rows = diff_metrics(&begin, &end, at(1000), false);
    assert_eq!(rows.len(), 1);
    assert_eq!(rows[0].delta, 10);
    assert_eq!(rows[0].begin_value, 100);
    assert_eq!(rows[0].end_value, 10);
    assert_eq!(metric_delta(100, 10, false), 10);
}

#[test]
fn gauge_that_goes_down_has_a_negative_delta() {
    let begin = vec![sample("h:9000", "mem_tracker", 100, true, 1000)];
    let end = vec![sample("h:9000", "mem_tracker", 10, true, 1060)];
    let rows = diff_metrics(&begin, &end, at(1000), false);
    assert_eq!(rows.len(), 1);
    assert_eq!(rows[0].delta, -90);
    assert_eq!(rows[0].rate_milli, Some(-1500));
    assert_eq!(metric_delta(100, 10, true), -90);
}

#[test]
fn rate_is_delta_per_second() {
    let begin = vec![sample("h:9000", "rows_inserted", 0, false, 1_643_133_068)];
    let end = vec![sample("h:9000", "rows_inserted", 120, false, 1_643_133_068 + 60)];
    let rows = diff_metrics(&begin, &end, at(1_643_133_068), false);
    assert_eq!(rows.len(), 1);
    assert_eq!(rows[0].delta, 120);
    assert_eq!(rows[0].rate_milli, Some(2000));
    let rate: f64 = rows[0].rate_milli.unwrap() as f64 / 1000.0;
    assert_eq!(rate, 2.0);
}

#[test]
fn rate_is_rounded_toward_zero() {
    assert_eq!(metric_rate(0, 10, false, 3000), Some(3333));
    assert_eq!(metric_rate(10, 0, true, 3000), Some(-3333));
    assert_eq!(metric_rate(0, 1, false, 1), Some(1_000_000));
    assert_eq!(metric_rate(5, 5, false, 1000), Some(0));
}

#[test]
fn rate_is_left_out_when_no_time_passed() {
    assert_eq!(metric_rate(0, 120, false, 0), None);
    assert_eq!(metric_rate(0, 120, false, -5), None);
    let begin = vec![sample("h:9000", "m", 1, false, 1060)];
    let end = vec![sample("h:9000", "m", 5, false, 1000)];
    let rows = diff_metrics(&begin, &end, at(1060), false);
    assert_eq!(rows[0].delta, 4);
    assert_eq!(rows[0].rate_milli, None);
}

#[test]
fn rate_of_the_largest_delta_fits() {
    assert_eq!(metric_rate(0, u64::MAX, false, 1), Some(u64::MAX as i128 * 1_000_000));
    assert_eq!(metric_rate(u64::MAX, 0, true, 1), Some(-(u64::MAX as i128) * 1_000_000));
    assert_eq!(metric_delta(u64::MAX, 0, true), -(u64::MAX as i128));
}

#[test]
fn new_metric_counts_from_zero_since_the_begin_of_the_pass() {
    let begin = vec![sample("h:9000", "other", 7, false, 1000)];
    let end = vec![sample("h:9000", "fresh", 30, false, 1060)];
    let rows = diff_metrics(&begin, &end, at(1030), false);
    assert_eq!(rows.len(), 1);
    assert_eq!(rows[0].metric, "fresh");
    assert_eq!(rows[0].begin_value, 0);
    assert_eq!(rows[0].delta, 30);
    assert_eq!(rows[0].rate_milli, Some(1000));
}

#[test]
fn metric_that_only_begin_holds_gets_no_row() {
    let begin = vec![sample("h:9000", "gone", 7, false, 1000)];
    let rows = diff_metrics(&begin, &Vec::new(), at(1000), true);
    assert!(rows.is_empty());
}

#[test]
fn unchanged_metric_is_left_out_unless_asked_for() {
    let begin = vec![sample("h:9000", "a", 5, false, 1000), sample("h:9000", "b", 5, true, 1000)];
    let end = vec![sample("h:9000", "a", 5, false, 1060), sample("h:9000", "b", 6, true, 1060)];
    let rows = diff_metrics(&begin, &end, at(1000), false);
    assert_eq!(rows.len(), 1);
    assert_eq!(rows[0].metric, "b");
    let rows = diff_metrics(&begin, &end, at(1000), true);
    assert_eq!(rows.len(), 2);
    let a = by_metric(&rows, "h:9000", "a");
    assert_eq!(a.delta, 0);
    assert_eq!(a.rate_milli, Some(0));
}

#[test]
fn metrics_are_told_apart_by_host_and_name() {
    let begin = vec![sample("h1:9000", "m", 1, false, 1000), sample("h2:9000", "m", 10, false, 1000)];
    let end = vec![sample("h2:9000", "m", 15, false, 1010), sample("h1:9000", "m", 3, false, 1010)];
    let rows = diff_metrics(&begin, &end, at(1000), false);
    assert_eq!(rows.len(), 2);
    assert_eq!(by_metric(&rows, "h1:9000", "m").delta, 2);
    assert_eq!(by_metric(&rows, "h2:9000", "m").delta, 5);
    assert_eq!(by_metric(&rows, "h2:9000", "m").rate_milli, Some(500));
}

#[test]
fn metric_diff_with_itself_has_no_delta_and_no_rate() {
    let set = vec![
        sample("h1:9000", "a", 1, false, 1000),
        sample("h1:9000", "b", 2, true, 1000),
        sample("h2:9000", "a", 3, false, 1000),
    ];
    assert!(diff_metrics(&set, &set, at(1000), false).is_empty());
    let rows = diff_metrics(&set, &set, at(1000), true);
    assert_eq!(rows.len(), 3);
    for row in &rows {
        assert_eq!(row.delta, 0);
        assert_eq!(row.rate_milli, None);
        assert_eq!(row.begin_value, row.end_value);
    }
}

#[test]
fn swapping_the_sets_negates_the_delta_of_a_gauge() {
    let begin = vec![sample("h:9000", "g", 100, true, 1000)];
    let end = vec![sample("h:9000", "g", 130, true, 1060)];
    let forward = diff_metrics(&begin, &end, at(1000), false);
    let backward = diff_metrics(&end, &begin, at(1060), false);
    assert_eq!(forward[0].delta, 30);
    assert_eq!(backward[0].delta, -30);
}

#[test]
fn first_sample_of_a_key_counts() {
    let begin = vec![sample("h:9000", "m", 1, false, 1000), sample("h:9000", "m", 50, false, 1000)];
    let end = vec![sample("h:9000", "m", 4, false, 1010), sample("h:9000", "m", 99, false, 1010)];
    let rows = diff_metrics(&begin, &end, at(1000), false);
    assert_eq!(rows.len(), 1);
    assert_eq!(rows[0].begin_value, 1);
    assert_eq!(rows[0].end_value, 4);
    assert_eq!(find_sample(&end, "h:9000", "m"), Some(0));
    assert_eq!(find_sample(&end, "h:9000", "x"), None);
}

#[test]
fn structured_diff_reports_added_removed_and_changed() {
    let begin = vec![
        row("h1/table_a", &["RUNNING", "3"]),
        row("h1/table_b", &["RUNNING", "3"]),
        row("h1/table_c", &["RUNNING", "3"]),
    ];
    let end = vec![
        row("h1/table_b", &["RUNNING", "5"]),
        row("h1/table_c", &["RUNNING", "3"]),
        row("h1/table_d", &["CREATING", "1"]),
    ];
    let changes = diff_rows(&begin, &end);
    assert_eq!(changes.len(), 3);
    let a = by_key(&changes, "h1/table_a");
    assert_eq!(a.kind, ChangeKind::Removed);
    assert_eq!(a.begin, vec!["RUNNING", "3"]);
    assert!(a.end.is_empty());
    let b = by_key(&changes, "h1/table_b");
    assert_eq!(b.kind, ChangeKind::Changed);
    assert_eq!(b.begin, vec!["RUNNING", "3"]);
    assert_eq!(b.end, vec!["RUNNING", "5"]);
    let d = by_key(&changes, "h1/table_d");
    assert_eq!(d.kind, ChangeKind::Added);
    assert!(d.begin.is_empty());
    assert_eq!(d.end, vec!["CREATING", "1"]);
    assert!(changes.iter().all(|c| c.key != "h1/table_c"));
}

#[test]
fn structured_diff_with_itself_is_empty() {
    let set = vec![row("a", &["1"]), row("b", &["2", "3"]), row("c", &[])];
    assert!(diff_rows(&set, &set).is_empty());
    assert!(diff_rows(&Vec::new(), &Vec::new()).is_empty());
}

#[test]
fn swapping_the_sets_swaps_added_and_removed() {
    let begin = vec![row("a", &["1"]), row("b", &["2"]), row("c", &["3"])];
    let end = vec![row("b", &["2"]), row("c", &["4"]), row("d", &["5"])];
    let forward = diff_rows(&begin, &end);
    let backward = diff_rows(&end, &begin);
    assert_eq!(forward.len(), backward.len());
    for change in &forward {
        let mirror = by_key(&backward, &change.key);
        let expected = match change.kind {
            ChangeKind::Added => ChangeKind::Removed,
            ChangeKind::Removed => ChangeKind::Added,
            ChangeKind::Changed => ChangeKind::Changed,
        };
        assert_eq!(mirror.kind, expected);
        assert_eq!(mirror.begin, change.end);
        assert_eq!(mirror.end, change.begin);
    }
    assert_eq!(by_key(&forward, "a").kind, ChangeKind::Removed);
    assert_eq!(by_key(&backward, "a").kind, ChangeKind::Added);
}

#[test]
fn structured_diff_against_nothing_is_all_added_or_all_removed() {
    let set = vec![row("a", &["1"]), row("b", &["2"])];
    let added = diff_rows(&Vec::new(), &set);
    assert_eq!(added.len(), 2);
    assert!(added.iter().all(|c| c.kind == ChangeKind::Added));
    let removed = diff_rows(&set, &Vec::new());
    assert_eq!(removed.len(), 2);
    assert!(removed.iter().all(|c| c.kind == ChangeKind::Removed));
}

#[test]
fn structured_diff_sees_a_difference_in_the_number_of_fields() {
    let changes = diff_rows(&vec![row("a", &["1"])], &vec![row("a", &["1", ""])]);
    assert_eq!(changes.len(), 1);
    assert_eq!(changes[0].kind, ChangeKind::Changed);
}

#[test]
fn first_row_of_a_key_counts() {
    let begin = vec![row("a", &["1"]), row("a", &["2"])];
    let end = vec![row("a", &["1"]), row("a", &["3"])];
    assert!(diff_rows(&begin, &end).is_empty());
    assert_eq!(find_row(&end, "a"), Some(0));
    assert_eq!(find_row(&end, "b"), None);
}

#[test]
fn same_fields_compares_text_by_text() {
    let a: Vec<String> = vec!["x".to_string(), "y".to_string()];
    let b: Vec<String> = vec!["x".to_string(), "z".to_string()];
    assert!(same_fields(&a, &a.clone()));
    assert!(!same_fields(&a, &b));
    assert!(!same_fields(&a, &a[..1].to_vec()));
}
