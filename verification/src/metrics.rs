//! The diff of metrics: counters and gauges, compared by value and brought to
//! a rate per second.

use crate::text::{lemma_position_is, lemma_position_none, lemma_position_of, position_of, str_equal};
use crate::timestamp::{elapsed_millis, elapsed_millis_between, Timestamp};
use vstd::prelude::*;

verus! {

/// One value of one metric of one node, with the time at which it was read.
#[derive(Debug, Clone)]
pub struct MetricSample {
    pub hostname_port: String,
    /// The identity of the metric on its node.
    pub metric: String,
    pub value: u64,
    /// Set for a metric that may go down as well as up; a metric without it
    /// is a counter, which only goes down when it starts again from zero.
    pub gauge: bool,
    pub timestamp: Timestamp,
}

/// The mathematical value of a [`MetricSample`].
pub struct MetricSampleView {
    pub hostname_port: Seq<char>,
    pub metric: Seq<char>,
    pub value: u64,
    pub gauge: bool,
    pub timestamp: Timestamp,
}

impl View for MetricSample {
    type V = MetricSampleView;

    open spec fn view(&self) -> MetricSampleView {
        MetricSampleView {
            hostname_port: self.hostname_port@,
            metric: self.metric@,
            value: self.value,
            gauge: self.gauge,
            timestamp: self.timestamp,
        }
    }
}

/// The values of the samples of a set, in order.
pub open spec fn sample_views(samples: Seq<MetricSample>) -> Seq<MetricSampleView> {
    Seq::new(samples.len(), |i: int| samples[i]@)
}

/// The key of each sample of a set, in order: the node and the metric.
pub open spec fn sample_keys(samples: Seq<MetricSampleView>) -> Seq<(Seq<char>, Seq<char>)> {
    Seq::new(samples.len(), |i: int| (samples[i].hostname_port, samples[i].metric))
}

/// A set of samples as a map from node and metric to sample. A set holds at
/// most one sample for a key; where a sequence holds more, the first counts.
pub open spec fn sample_map(samples: Seq<MetricSampleView>) -> Map<
    (Seq<char>, Seq<char>),
    MetricSampleView,
> {
    Map::new(
        |key: (Seq<char>, Seq<char>)| position_of(sample_keys(samples), key) is Some,
        |key: (Seq<char>, Seq<char>)| samples[position_of(sample_keys(samples), key)->0],
    )
}

/// One row of a metric diff.
#[derive(Debug, Clone)]
pub struct MetricDiff {
    pub hostname_port: String,
    pub metric: String,
    pub gauge: bool,
    pub begin_value: u64,
    pub end_value: u64,
    pub delta: i128,
    /// The rate in thousandths per second, rounded toward zero; `None` where
    /// no time passed between the two samples.
    pub rate_milli: Option<i128>,
}

/// The mathematical value of a [`MetricDiff`].
pub struct MetricDiffView {
    pub hostname_port: Seq<char>,
    pub metric: Seq<char>,
    pub gauge: bool,
    pub begin_value: u64,
    pub end_value: u64,
    pub delta: int,
    pub rate_milli: Option<int>,
}

impl View for MetricDiff {
    type V = MetricDiffView;

    open spec fn view(&self) -> MetricDiffView {
        MetricDiffView {
            hostname_port: self.hostname_port@,
            metric: self.metric@,
            gauge: self.gauge,
            begin_value: self.begin_value,
            end_value: self.end_value,
            delta: self.delta as int,
            rate_milli: match self.rate_milli {
                Some(rate) => Some(rate as int),
                None => None,
            },
        }
    }
}

/// The values of the rows of a metric diff, in order.
pub open spec fn metric_diff_views(rows: Seq<MetricDiff>) -> Seq<MetricDiffView> {
    Seq::new(rows.len(), |i: int| rows[i]@)
}

/// The delta that is reported for a metric that went from `begin_value` to
/// `end_value`. A counter that went down has started again from zero, so all
/// of its end value is new; a gauge that went down has a negative delta.
pub open spec fn reported_delta(begin_value: int, end_value: int, gauge: bool) -> int {
    if end_value < begin_value && !gauge {
        end_value
    } else {
        end_value - begin_value
    }
}

/// The rate, in thousandths per second and rounded toward zero, of a delta
/// that built up over `elapsed_ms` milliseconds; `None` where no time passed.
pub open spec fn rate_milli_of(delta: int, elapsed_ms: int) -> Option<int> {
    if elapsed_ms <= 0 {
        None
    } else if delta >= 0 {
        Some((delta * 1_000_000) / elapsed_ms)
    } else {
        Some(-(((-delta) * 1_000_000) / elapsed_ms))
    }
}

/// The row of the diff for the end sample `sample`. A metric that the begin
/// set lacks is new: it counts from zero, since the time `begin_time` of the
/// begin pass.
pub open spec fn metric_row(
    begin: Map<(Seq<char>, Seq<char>), MetricSampleView>,
    begin_time: Timestamp,
    sample: MetricSampleView,
) -> MetricDiffView {
    let key = (sample.hostname_port, sample.metric);
    let begin_value: u64 = if begin.dom().contains(key) {
        begin[key].value
    } else {
        0
    };
    let since = if begin.dom().contains(key) {
        begin[key].timestamp
    } else {
        begin_time
    };
    let delta = reported_delta(begin_value as int, sample.value as int, sample.gauge);
    MetricDiffView {
        hostname_port: sample.hostname_port,
        metric: sample.metric,
        gauge: sample.gauge,
        begin_value,
        end_value: sample.value,
        delta,
        rate_milli: rate_milli_of(delta, elapsed_millis_between(since, sample.timestamp)),
    }
}

/// The row that the diff of `begin` and `end` holds for `key`: the row of the
/// end sample, unless the end set lacks the key, or the delta is zero and
/// rows without a change are not asked for.
pub open spec fn metric_change_of(
    begin: Map<(Seq<char>, Seq<char>), MetricSampleView>,
    end: Map<(Seq<char>, Seq<char>), MetricSampleView>,
    begin_time: Timestamp,
    include_unchanged: bool,
    key: (Seq<char>, Seq<char>),
) -> Option<MetricDiffView> {
    if end.dom().contains(key) && (include_unchanged || metric_row(begin, begin_time, end[key]).delta
        != 0) {
        Some(metric_row(begin, begin_time, end[key]))
    } else {
        None
    }
}

/// Whether `rows` holds a row for `key`.
pub open spec fn reports_metric(rows: Seq<MetricDiffView>, key: (Seq<char>, Seq<char>)) -> bool {
    exists|k: int|
        0 <= k < rows.len() && ((#[trigger] rows[k]).hostname_port, rows[k].metric) == key
}

/// Whether `rows` is the metric diff of the sets `begin` and `end`: each of
/// its rows is the row that the diff holds for its key, no key has two rows,
/// and no key for which the diff holds a row is left out.
pub open spec fn is_metric_diff(
    rows: Seq<MetricDiffView>,
    begin: Map<(Seq<char>, Seq<char>), MetricSampleView>,
    end: Map<(Seq<char>, Seq<char>), MetricSampleView>,
    begin_time: Timestamp,
    include_unchanged: bool,
) -> bool {
    &&& forall|k: int|
        0 <= k < rows.len() ==> metric_change_of(
            begin,
            end,
            begin_time,
            include_unchanged,
            ((#[trigger] rows[k]).hostname_port, rows[k].metric),
        ) == Some(rows[k])
    &&& forall|k: int, l: int|
        0 <= k < l < rows.len() ==> ((#[trigger] rows[k]).hostname_port, rows[k].metric) != (
            (#[trigger] rows[l]).hostname_port,
            rows[l].metric,
        )
    &&& forall|key: (Seq<char>, Seq<char>)| #[trigger]
        metric_change_of(begin, end, begin_time, include_unchanged, key) is Some ==> reports_metric(
            rows,
            key,
        )
}

/// Whether the rows of a diff stand in the order in which the end set holds
/// their metrics.
pub open spec fn in_end_order(rows: Seq<MetricDiffView>, end: Seq<MetricSampleView>) -> bool {
    forall|k: int, l: int|
        0 <= k < l < rows.len() ==> position_of(
            sample_keys(end),
            ((#[trigger] rows[k]).hostname_port, rows[k].metric),
        )->0 < position_of(sample_keys(end), ((#[trigger] rows[l]).hostname_port, rows[l].metric))->0
}

/// Computes the delta that is reported for a metric.
pub fn metric_delta(begin_value: u64, end_value: u64, gauge: bool) -> (delta: i128)
    ensures
        delta == reported_delta(begin_value as int, end_value as int, gauge),
        !gauge ==> delta >= 0,
{
    if end_value < begin_value && !gauge {
        end_value as i128
    } else {
        (end_value as i128) - (begin_value as i128)
    }
}

/// Computes the rate of a delta that built up over `elapsed_ms` milliseconds.
pub fn metric_rate(begin_value: u64, end_value: u64, gauge: bool, elapsed_ms: i128) -> (rate:
    Option<i128>)
    ensures
        match rate {
            Some(rate) => rate_milli_of(
                reported_delta(begin_value as int, end_value as int, gauge),
                elapsed_ms as int,
            ) == Some(rate as int),
            None => elapsed_ms <= 0,
        },
{
    if elapsed_ms <= 0 {
        return None;
    }
    let delta: i128 = metric_delta(begin_value, end_value, gauge);
    if delta >= 0 {
        let scaled: i128 = delta * 1_000_000;
        assert(0 <= scaled / elapsed_ms <= scaled) by (nonlinear_arith)
            requires
                scaled >= 0,
                elapsed_ms > 0,
        ;
        Some(scaled / elapsed_ms)
    } else {
        let scaled: i128 = (-delta) * 1_000_000;
        assert(0 <= scaled / elapsed_ms <= scaled) by (nonlinear_arith)
            requires
                scaled >= 0,
                elapsed_ms > 0,
        ;
        Some(-(scaled / elapsed_ms))
    }
}

/// Finds the first sample of `samples` for the metric `metric` of the node
/// `hostname_port`.
pub fn find_sample(samples: &Vec<MetricSample>, hostname_port: &str, metric: &str) -> (r: Option<
    usize,
>)
    ensures
        match r {
            Some(i) => i < samples.len() && position_of(
                sample_keys(sample_views(samples@)),
                (hostname_port@, metric@),
            ) == Some(i as int),
            None => position_of(sample_keys(sample_views(samples@)), (hostname_port@, metric@))
                is None,
        },
{
    let ghost keys = sample_keys(sample_views(samples@));
    let ghost key = (hostname_port@, metric@);
    let mut i: usize = 0;
    while i < samples.len()
        invariant
            i <= samples.len(),
            keys == sample_keys(sample_views(samples@)),
            key == (hostname_port@, metric@),
            forall|j: int| 0 <= j < i ==> keys[j] != key,
        decreases samples.len() - i,
    {
        if str_equal(samples[i].hostname_port.as_str(), hostname_port) && str_equal(
            samples[i].metric.as_str(),
            metric,
        ) {
            proof {
                assert(keys[i as int] == key);
                lemma_position_is(keys, key, i as int);
            }
            return Some(i);
        }
        assert(keys[i as int] != key);
        i = i + 1;
    }
    proof {
        lemma_position_none(keys, key);
    }
    None
}

proof fn lemma_reports_metric_after_push(
    rows: Seq<MetricDiffView>,
    row: MetricDiffView,
    key: (Seq<char>, Seq<char>),
)
    requires
        reports_metric(rows, key) || (row.hostname_port, row.metric) == key,
    ensures
        reports_metric(rows.push(row), key),
{
    let all = rows.push(row);
    if reports_metric(rows, key) {
        let k = choose|k: int|
            0 <= k < rows.len() && ((#[trigger] rows[k]).hostname_port, rows[k].metric) == key;
        assert((all[k].hostname_port, all[k].metric) == key);
    } else {
        assert((all[rows.len() as int].hostname_port, all[rows.len() as int].metric) == key);
    }
}

proof fn lemma_sample_in_map(samples: Seq<MetricSampleView>, key: (Seq<char>, Seq<char>))
    ensures
        match position_of(sample_keys(samples), key) {
            Some(i) => 0 <= i < samples.len() && (samples[i].hostname_port, samples[i].metric)
                == key && sample_map(samples).dom().contains(key) && sample_map(samples)[key]
                == samples[i],
            None => !sample_map(samples).dom().contains(key),
        },
{
    lemma_position_of(sample_keys(samples), key);
    if position_of(sample_keys(samples), key) is Some {
        let i = position_of(sample_keys(samples), key)->0;
        assert(sample_keys(samples)[i] == key);
    }
}

/// Compares two sets of metrics key by key.
///
/// Each metric of `end` gets a row with its delta since `begin` and its rate,
/// unless its delta is zero and `include_unchanged` is off. A metric that
/// `begin` lacks counts from zero since `begin_time`. A metric that only
/// `begin` holds gets no row. The rows come in the order of `end`.
pub fn diff_metrics(
    begin: &Vec<MetricSample>,
    end: &Vec<MetricSample>,
    begin_time: Timestamp,
    include_unchanged: bool,
) -> (rows: Vec<MetricDiff>)
    ensures
        is_metric_diff(
            metric_diff_views(rows@),
            sample_map(sample_views(begin@)),
            sample_map(sample_views(end@)),
            begin_time,
            include_unchanged,
        ),
        in_end_order(metric_diff_views(rows@), sample_views(end@)),
{
    let ghost b_samples = sample_views(begin@);
    let ghost e_samples = sample_views(end@);
    let ghost b = sample_map(b_samples);
    let ghost e = sample_map(e_samples);
    let mut rows: Vec<MetricDiff> = Vec::new();
    let mut j: usize = 0;
    while j < end.len()
        invariant
            j <= end.len(),
            b_samples == sample_views(begin@),
            e_samples == sample_views(end@),
            b == sample_map(b_samples),
            e == sample_map(e_samples),
            forall|k: int|
                0 <= k < rows.len() ==> metric_change_of(
                    b,
                    e,
                    begin_time,
                    include_unchanged,
                    (
                        (#[trigger] metric_diff_views(rows@)[k]).hostname_port,
                        metric_diff_views(rows@)[k].metric,
                    ),
                ) == Some(metric_diff_views(rows@)[k]),
            forall|k: int, l: int|
                0 <= k < l < rows.len() ==> (
                    (#[trigger] metric_diff_views(rows@)[k]).hostname_port,
                    metric_diff_views(rows@)[k].metric,
                ) != (
                    (#[trigger] metric_diff_views(rows@)[l]).hostname_port,
                    metric_diff_views(rows@)[l].metric,
                ),
            forall|k: int|
                0 <= k < rows.len() ==> exists|m: int|
                    0 <= m < j && (#[trigger] sample_keys(e_samples)[m]) == (
                        (#[trigger] metric_diff_views(rows@)[k]).hostname_port,
                        metric_diff_views(rows@)[k].metric,
                    ),
            in_end_order(metric_diff_views(rows@), e_samples),
            forall|m: int|
                0 <= m < j && metric_change_of(
                    b,
                    e,
                    begin_time,
                    include_unchanged,
                    #[trigger] sample_keys(e_samples)[m],
                ) is Some ==> reports_metric(metric_diff_views(rows@), sample_keys(e_samples)[m]),
        decreases end.len() - j,
    {
        let sample = &end[j];
        let ghost key = (sample.hostname_port@, sample.metric@);
        let ghost before = metric_diff_views(rows@);
        proof {
            lemma_sample_in_map(e_samples, key);
            lemma_sample_in_map(b_samples, key);
            assert(sample_keys(e_samples)[j as int] == key);
            assert(e_samples[j as int] == sample@);
        }
        let first = find_sample(end, sample.hostname_port.as_str(), sample.metric.as_str());
        let mut pushed: bool = false;
        if first == Some(j) {
            let found = find_sample(begin, sample.hostname_port.as_str(), sample.metric.as_str());
            let begin_value: u64 = match found {
                Some(i) => begin[i].value,
                None => 0,
            };
            let since: Timestamp = match found {
                Some(i) => begin[i].timestamp,
                None => begin_time,
            };
            proof {
                if found is Some {
                    assert(b_samples[found->0 as int] == begin[found->0 as int]@);
                }
            }
            let delta: i128 = metric_delta(begin_value, sample.value, sample.gauge);
            if include_unchanged || delta != 0 {
                let rate = metric_rate(
                    begin_value,
                    sample.value,
                    sample.gauge,
                    elapsed_millis(since, sample.timestamp),
                );
                rows.push(
                    MetricDiff {
                        hostname_port: sample.hostname_port.clone(),
                        metric: sample.metric.clone(),
                        gauge: sample.gauge,
                        begin_value,
                        end_value: sample.value,
                        delta,
                        rate_milli: rate,
                    },
                );
                pushed = true;
            }
        }
        proof {
            let after = metric_diff_views(rows@);
            let keys = sample_keys(e_samples);
            lemma_position_of(keys, key);
            if pushed {
                let row = rows@.last()@;
                assert(after == before.push(row));
                assert((row.hostname_port, row.metric) == key);
                assert(metric_change_of(b, e, begin_time, include_unchanged, key) == Some(row));
                assert forall|k: int, l: int| 0 <= k < l < after.len() implies (
                    (#[trigger] after[k]).hostname_port,
                    after[k].metric,
                ) != ((#[trigger] after[l]).hostname_port, after[l].metric) by {
                    if l == after.len() - 1 {
                        let m = choose|m: int|
                            0 <= m < j && (#[trigger] keys[m]) == (
                                (#[trigger] before[k]).hostname_port,
                                before[k].metric,
                            );
                        assert(keys[m] != key);
                    }
                }
                assert forall|k: int, l: int| 0 <= k < l < after.len() implies position_of(
                    keys,
                    ((#[trigger] after[k]).hostname_port, after[k].metric),
                )->0 < position_of(keys, ((#[trigger] after[l]).hostname_port, after[l].metric))->0 by {
                    if l == after.len() - 1 {
                        let m = choose|m: int|
                            0 <= m < j && (#[trigger] keys[m]) == (
                                (#[trigger] before[k]).hostname_port,
                                before[k].metric,
                            );
                        lemma_position_of(keys, (before[k].hostname_port, before[k].metric));
                    } else {
                        assert(after[k] == before[k] && after[l] == before[l]);
                    }
                }
                assert forall|k: int| 0 <= k < after.len() implies exists|m: int|
                    0 <= m < j + 1 && (#[trigger] keys[m]) == (
                        (#[trigger] after[k]).hostname_port,
                        after[k].metric,
                    ) by {
                    if k < before.len() {
                        let m = choose|m: int|
                            0 <= m < j && (#[trigger] keys[m]) == (
                                (#[trigger] before[k]).hostname_port,
                                before[k].metric,
                            );
                        assert(keys[m] == (after[k].hostname_port, after[k].metric));
                    } else {
                        assert(keys[j as int] == (after[k].hostname_port, after[k].metric));
                    }
                }
                assert forall|m: int|
                    0 <= m < j + 1 && metric_change_of(
                        b,
                        e,
                        begin_time,
                        include_unchanged,
                        #[trigger] keys[m],
                    ) is Some implies reports_metric(after, keys[m]) by {
                    lemma_reports_metric_after_push(before, row, keys[m]);
                }
            } else {
                assert(after == before);
                if metric_change_of(b, e, begin_time, include_unchanged, key) is Some {
                    // The key stands earlier in the end set, where it was handled.
                    let p = position_of(keys, key)->0;
                    assert(p < j);
                    assert(keys[p] == key);
                    assert(reports_metric(before, keys[p]));
                }
                assert forall|k: int| 0 <= k < after.len() implies exists|m: int|
                    0 <= m < j + 1 && (#[trigger] keys[m]) == (
                        (#[trigger] after[k]).hostname_port,
                        after[k].metric,
                    ) by {
                    let m = choose|m: int|
                        0 <= m < j && (#[trigger] keys[m]) == (
                            (#[trigger] before[k]).hostname_port,
                            before[k].metric,
                        );
                    assert(keys[m] == (after[k].hostname_port, after[k].metric));
                }
            }
        }
        j = j + 1;
    }
    proof {
        let all = metric_diff_views(rows@);
        assert forall|key: (Seq<char>, Seq<char>)| #[trigger]
            metric_change_of(b, e, begin_time, include_unchanged, key) is Some implies reports_metric(
            all,
            key,
        ) by {
            lemma_sample_in_map(e_samples, key);
            let p = position_of(sample_keys(e_samples), key)->0;
            assert(sample_keys(e_samples)[p] == key);
        }
    }
    rows
}

/// The delta of a counter is never negative: where the counter went down,
/// its end value is reported.
pub proof fn lemma_counter_delta_not_negative(begin_value: u64, end_value: u64)
    ensures
        reported_delta(begin_value as int, end_value as int, false) >= 0,
        end_value < begin_value ==> reported_delta(begin_value as int, end_value as int, false)
            == end_value,
{
}

/// A metric whose value is the same on both sides has a zero delta, and a
/// zero rate where it has a rate.
pub proof fn lemma_unchanged_metric(
    begin: Map<(Seq<char>, Seq<char>), MetricSampleView>,
    begin_time: Timestamp,
    sample: MetricSampleView,
)
    requires
        begin.dom().contains((sample.hostname_port, sample.metric)),
        begin[(sample.hostname_port, sample.metric)].value == sample.value,
    ensures
        metric_row(begin, begin_time, sample).delta == 0,
        metric_row(begin, begin_time, sample).rate_milli is None || metric_row(
            begin,
            begin_time,
            sample,
        ).rate_milli == Some(0int),
{
    let since = begin[(sample.hostname_port, sample.metric)].timestamp;
    let elapsed = elapsed_millis_between(since, sample.timestamp);
    if elapsed > 0 {
        assert((0int * 1_000_000) / elapsed == 0) by (nonlinear_arith)
            requires
                elapsed > 0,
        ;
    }
}

/// The diff of a set of metrics with itself holds only rows with a zero
/// delta and without a rate, as no time passed; it holds no row at all where
/// rows without a change are not asked for.
pub proof fn lemma_metric_diff_with_itself(
    rows: Seq<MetricDiffView>,
    samples: Map<(Seq<char>, Seq<char>), MetricSampleView>,
    begin_time: Timestamp,
    include_unchanged: bool,
)
    requires
        is_metric_diff(rows, samples, samples, begin_time, include_unchanged),
    ensures
        forall|k: int|
            0 <= k < rows.len() ==> (#[trigger] rows[k]).delta == 0 && rows[k].rate_milli is None,
        !include_unchanged ==> rows.len() == 0,
{
    assert forall|k: int| 0 <= k < rows.len() implies (#[trigger] rows[k]).delta == 0
        && rows[k].rate_milli is None && include_unchanged by {
        let key = (rows[k].hostname_port, rows[k].metric);
        assert(metric_change_of(samples, samples, begin_time, include_unchanged, key) == Some(
            rows[k],
        ));
        assert(elapsed_millis_between(samples[key].timestamp, samples[key].timestamp) == 0);
    }
    if !include_unchanged && rows.len() > 0 {
        assert(rows[0].delta == 0);
    }
}

/// With begin and end exchanged, the delta of a metric changes its sign,
/// where neither direction is a counter that started again: the metric is a
/// gauge, or its value is the same on both sides.
pub proof fn lemma_swapped_metric_delta(begin_value: u64, end_value: u64, gauge: bool)
    requires
        gauge || begin_value == end_value,
    ensures
        reported_delta(end_value as int, begin_value as int, gauge) == -reported_delta(
            begin_value as int,
            end_value as int,
            gauge,
        ),
{
}

/// With the two sets exchanged, the row of a metric that both sets hold has
/// the negated delta, where neither direction is a counter that started again.
pub proof fn lemma_swapped_metric_row(
    begin: Map<(Seq<char>, Seq<char>), MetricSampleView>,
    end: Map<(Seq<char>, Seq<char>), MetricSampleView>,
    begin_time: Timestamp,
    end_time: Timestamp,
    key: (Seq<char>, Seq<char>),
)
    requires
        begin.dom().contains(key),
        end.dom().contains(key),
        (begin[key].hostname_port, begin[key].metric) == key,
        (end[key].hostname_port, end[key].metric) == key,
        begin[key].gauge == end[key].gauge,
        begin[key].gauge || begin[key].value == end[key].value,
    ensures
        metric_row(end, end_time, begin[key]).delta == -metric_row(begin, begin_time, end[key]).delta,
{
}

} // verus!
