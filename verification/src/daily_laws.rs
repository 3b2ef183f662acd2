//! What a daily comparison says of the summaries that it compares.

use crate::daily::{
    all_metrics, crossed_up_to, is_comparison, is_crossed, is_metric_delta, value_known,
    ComparisonBasis, ComparisonPoint, DailyComparison, DailyComparisonPoints, DailyMetric,
    DailyMetricDelta, METRICS,
};
use crate::numbers::Ratio;
use crate::volume_report::RequestConcentrationSummary;
use vstd::prelude::*;

verus! {

/// A whole number as a measured value.
pub open spec fn whole(n: int) -> Ratio {
    Ratio { numerator: n as u64, denominator: 1 }
}

/// A measured value is the number of the summary that its metric names: requests, sources, the
/// share of the most requested path, its requests per source, all requests per source, and the
/// shares of successes, of closed requests and of server errors. There is none where what it is
/// divided by is zero, without a most requested path, or without a recorded status.
pub proof fn metrics_are_numbers_of_the_summary(s: RequestConcentrationSummary)
    ensures
        DailyMetric::TotalRequests.measured(Some(s)) == Ok::<Ratio, Seq<char>>(
            whole(s.total_requests as int),
        ),
        DailyMetric::DistinctSourceIps.measured(Some(s)) == Ok::<Ratio, Seq<char>>(
            whole(s.distinct_source_ips as int),
        ),
        match s.top_path {
            Some(path) => {
                &&& DailyMetric::TopPathShare.measured(Some(s)) is Ok == (s.total_requests > 0)
                &&& s.total_requests > 0 ==> DailyMetric::TopPathShare.measured(Some(s)) == Ok::<
                    Ratio,
                    Seq<char>,
                >(path.request_share)
                &&& DailyMetric::TopPathRequestsPerSourceIp.measured(Some(s)) is Ok == (
                path.distinct_source_ips > 0)
                &&& path.distinct_source_ips > 0
                    ==> DailyMetric::TopPathRequestsPerSourceIp.measured(Some(s)) == Ok::<
                    Ratio,
                    Seq<char>,
                >(
                    Ratio {
                        numerator: path.requests,
                        denominator: path.distinct_source_ips as u64,
                    },
                )
            },
            None => DailyMetric::TopPathShare.measured(Some(s)) is Err
                && DailyMetric::TopPathRequestsPerSourceIp.measured(Some(s)) is Err,
        },
        DailyMetric::CorpusRequestsPerSourceIp.measured(Some(s)) is Ok == (s.distinct_source_ips
            > 0),
        s.distinct_source_ips > 0 ==> DailyMetric::CorpusRequestsPerSourceIp.measured(Some(s))
            == Ok::<Ratio, Seq<char>>(
            Ratio {
                numerator: s.total_requests,
                denominator: s.distinct_source_ips as u64,
            },
        ),
        match s.response_outcomes {
            Some(o) => {
                let recorded = o.counts.informational + o.counts.success + o.counts.redirection
                    + o.counts.client_error + o.counts.server_error + o.counts.other;
                &&& DailyMetric::SuccessShare.measured(Some(s)) is Ok == (recorded > 0)
                &&& DailyMetric::ClientClosedRequest499Share.measured(Some(s)) is Ok == (recorded
                    > 0)
                &&& DailyMetric::ServerErrorShare.measured(Some(s)) is Ok == (recorded > 0)
                &&& recorded > 0 ==> DailyMetric::SuccessShare.measured(Some(s)) == Ok::<
                    Ratio,
                    Seq<char>,
                >(o.success_share)
                &&& recorded > 0 ==> DailyMetric::ClientClosedRequest499Share.measured(Some(s))
                    == Ok::<Ratio, Seq<char>>(o.client_closed_request_499_share)
                &&& recorded > 0 ==> DailyMetric::ServerErrorShare.measured(Some(s)) == Ok::<
                    Ratio,
                    Seq<char>,
                >(o.server_error_share)
            },
            None => DailyMetric::SuccessShare.measured(Some(s)) is Err
                && DailyMetric::ClientClosedRequest499Share.measured(Some(s)) is Err
                && DailyMetric::ServerErrorShare.measured(Some(s)) is Err,
        },
{
}

/// A measurement gives a metric as it stands in the baseline and in the current run. A count is
/// given exactly, with what it grew by.
pub proof fn measurements_are_of_both_runs(
    r: DailyMetricDelta,
    metric: DailyMetric,
    b: RequestConcentrationSummary,
    c: RequestConcentrationSummary,
)
    requires
        is_metric_delta(r, metric, Some(b), Some(c)),
    ensures
        r.baseline is Some == metric.measured(Some(b)) is Ok,
        r.current is Some == metric.measured(Some(c)) is Ok,
        r.baseline is Some ==> metric.measured(Some(b)) == Ok::<Ratio, Seq<char>>(
            r.baseline.unwrap(),
        ),
        r.current is Some ==> metric.measured(Some(c)) == Ok::<Ratio, Seq<char>>(
            r.current.unwrap(),
        ),
        r.counts is Some == (metric == DailyMetric::TotalRequests || metric
            == DailyMetric::DistinctSourceIps),
        metric == DailyMetric::TotalRequests ==> {
            let n = r.counts.unwrap();
            let grown = c.total_requests - b.total_requests;
            &&& n.baseline == b.total_requests
            &&& n.current == c.total_requests
            &&& i64::MIN <= grown <= i64::MAX ==> n.delta == grown
        },
        metric == DailyMetric::DistinctSourceIps ==> {
            let n = r.counts.unwrap();
            let grown = c.distinct_source_ips - b.distinct_source_ips;
            &&& n.baseline == b.distinct_source_ips
            &&& n.current == c.distinct_source_ips
            &&& i64::MIN <= grown <= i64::MAX ==> n.delta == grown
        },
{
}

/// The value of a point on the change is known where both values are; that of one on the ratio
/// needs a baseline other than zero too.
pub proof fn ratios_need_a_baseline(point: ComparisonPoint, m: DailyMetricDelta)
    ensures
        point.basis == ComparisonBasis::Delta ==> value_known(point, m) == (m.baseline is Some
            && m.current is Some),
        point.basis == ComparisonBasis::Ratio ==> value_known(point, m) == (m.baseline matches Some(
            b,
        ) && m.current is Some && b.numerator > 0 && b.denominator > 0),
{
}

proof fn lemma_crossed(r: DailyComparison, n: nat, k: int)
    requires
        r.evaluations@.len() == METRICS,
        n <= METRICS,
        0 <= k < METRICS,
    ensures
        crossed_up_to(r.evaluations@, n).contains(all_metrics()[k]) == (k < n && is_crossed(
            r.evaluations@[k],
        )),
        crossed_up_to(r.evaluations@, n).no_duplicates(),
        forall|m: DailyMetric| #[trigger]
            crossed_up_to(r.evaluations@, n).contains(m) ==> exists|j: int|
                0 <= j < n && all_metrics()[j] == m,
    decreases n,
{
    if n > 0 {
        lemma_crossed(r, (n - 1) as nat, k);
        let before = crossed_up_to(r.evaluations@, (n - 1) as nat);
        let all = crossed_up_to(r.evaluations@, n);
        let m = all_metrics()[n - 1];
        assert(forall|i: int, j: int|
            0 <= i < j < 8 ==> #[trigger] all_metrics()[i] != #[trigger] all_metrics()[j]);
        if before.contains(all_metrics()[k]) {
            let i = before.index_of(all_metrics()[k]);
            assert(all[i] == all_metrics()[k]);
        }
        if all.contains(all_metrics()[k]) {
            let i = all.index_of(all_metrics()[k]);
            if i < before.len() {
                assert(before[i] == all_metrics()[k]);
                assert(before.contains(before[i]));
            }
        }
        if is_crossed(r.evaluations@[n - 1]) {
            assert(all[all.len() - 1] == m);
            assert(!before.contains(m)) by {
                if before.contains(m) {
                    let j = choose|j: int| 0 <= j < n - 1 && all_metrics()[j] == m;
                    assert(all_metrics()[j] != all_metrics()[n - 1]);
                }
            }
        }
        assert forall|x: DailyMetric| #[trigger] all.contains(x) implies exists|j: int|
            0 <= j < n && all_metrics()[j] == x by {
            let i = all.index_of(x);
            if i < before.len() {
                assert(before[i] == x);
                assert(before.contains(x));
                let j = choose|j: int| 0 <= j < n - 1 && all_metrics()[j] == x;
                assert(all_metrics()[j] == x);
            } else {
                assert(all_metrics()[n - 1] == x);
            }
        }
    }
}

/// A point is reported as crossed exactly where there is one for the metric, its value is known,
/// and it stands to the point as its relation asks; where there is none, nothing is evaluated.
pub proof fn points_are_crossed_where_their_relation_holds(
    r: DailyComparison,
    b: Option<RequestConcentrationSummary>,
    c: Option<RequestConcentrationSummary>,
    points: DailyComparisonPoints,
    holds: Seq<bool>,
    k: int,
)
    requires
        is_comparison(r, b, c, points, holds),
        0 <= k < METRICS,
    ensures
        r.crossed_points@.contains(all_metrics()[k]) == (points.points@[k] is Some && value_known(
            points.points@[k].unwrap(),
            r.measurements@[k],
        ) && holds[k]),
        r.evaluations@[k] is Some == points.points@[k] is Some,
        r.evaluations@[k] matches Some(e) ==> e.crossed is Some == value_known(
            points.points@[k].unwrap(),
            r.measurements@[k],
        ),
        r.crossed_points@.no_duplicates(),
        r.crossed_point_count == r.crossed_points@.len(),
        is_metric_delta(r.measurements@[k], all_metrics()[k], b, c),
{
    lemma_crossed(r, METRICS as nat, k);
    assert(crate::daily::is_evaluation(
        r.evaluations@[k],
        points.points@[k],
        r.measurements@[k],
        holds[k],
    ));
}

} // verus!
