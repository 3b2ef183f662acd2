//! Opt-in descriptive comparison of aggregate measurements. No raw entity values,
//! classifications or clocks are used.
//!
//! A measurement is kept as the exact quotient of two counts. How its rounded value stands to a
//! comparison point, and how it is printed, is for the caller to say.

use crate::comparison::NumericDelta;
use crate::numbers::Ratio;
use crate::text::{
    decimal, decimal_text, join, join_texts, opt_text, push_decimal, signed_decimal, signed_text,
    texts,
};
use crate::volume_report::RequestConcentrationSummary;
use vstd::prelude::*;
use vstd::string::*;

verus! {

broadcast use vstd::string::group_string_axioms;

pub const COMPARISON_POINT_NOTE: &'static str =
    "A comparison point is a value the operator chose, not a finding. Crossing one means the measurement moved by at least that much between two runs of the same corpus. Traffic changes for many reasons: a campaign, a release, a holiday, a crawler arriving or leaving, an upstream change in how client addresses are presented. None of this is a determination of an outage, degraded availability, an attack, or abuse.";

pub const MEASUREMENT_NOTE: &'static str =
    "Delta = current - baseline; ratio = current / baseline. Share deltas use fractions (multiply by 100 for percentage points). Each run selects its own retained top path; these need not be the same path. Corpus requests/source uses total requests divided by retained distinct sources, not top-path counts. Retention omissions can affect the selected top path and denominators; counts are not cumulative across runs. Status shares retain all observations, including missing status, in the denominator. Select two windows of the same corpus; Shenron does not infer shared host identity.";

#[derive(Clone, Copy, Debug, PartialEq, Eq, Structural)]
pub enum DailyMetric {
    TotalRequests,
    DistinctSourceIps,
    TopPathShare,
    TopPathRequestsPerSourceIp,
    CorpusRequestsPerSourceIp,
    SuccessShare,
    ClientClosedRequest499Share,
    ServerErrorShare,
}

/// How many metrics there are.
pub const METRICS: usize = 8;

/// The metrics in the order in which they are reported.
pub open spec fn all_metrics() -> Seq<DailyMetric> {
    seq![
        DailyMetric::TotalRequests,
        DailyMetric::DistinctSourceIps,
        DailyMetric::TopPathShare,
        DailyMetric::TopPathRequestsPerSourceIp,
        DailyMetric::CorpusRequestsPerSourceIp,
        DailyMetric::SuccessShare,
        DailyMetric::ClientClosedRequest499Share,
        DailyMetric::ServerErrorShare,
    ]
}


impl DailyMetric {
    /// The place of a metric in a report.
    pub open spec fn place(self) -> int {
        match self {
            DailyMetric::TotalRequests => 0,
            DailyMetric::DistinctSourceIps => 1,
            DailyMetric::TopPathShare => 2,
            DailyMetric::TopPathRequestsPerSourceIp => 3,
            DailyMetric::CorpusRequestsPerSourceIp => 4,
            DailyMetric::SuccessShare => 5,
            DailyMetric::ClientClosedRequest499Share => 6,
            DailyMetric::ServerErrorShare => 7,
        }
    }

    pub fn rank(self) -> (r: usize)
        ensures
            r == self.place(),
            r < METRICS,
            all_metrics()[r as int] == self,
    {
        match self {
            DailyMetric::TotalRequests => 0,
            DailyMetric::DistinctSourceIps => 1,
            DailyMetric::TopPathShare => 2,
            DailyMetric::TopPathRequestsPerSourceIp => 3,
            DailyMetric::CorpusRequestsPerSourceIp => 4,
            DailyMetric::SuccessShare => 5,
            DailyMetric::ClientClosedRequest499Share => 6,
            DailyMetric::ServerErrorShare => 7,
        }
    }

    pub fn all() -> (r: Vec<DailyMetric>)
        ensures
            r@ == all_metrics(),
    {
        vec![
            DailyMetric::TotalRequests,
            DailyMetric::DistinctSourceIps,
            DailyMetric::TopPathShare,
            DailyMetric::TopPathRequestsPerSourceIp,
            DailyMetric::CorpusRequestsPerSourceIp,
            DailyMetric::SuccessShare,
            DailyMetric::ClientClosedRequest499Share,
            DailyMetric::ServerErrorShare,
        ]
    }

    pub open spec fn name(self) -> Seq<char> {
        match self {
            DailyMetric::TotalRequests => "Total requests"@,
            DailyMetric::DistinctSourceIps => "Retained distinct source IPs"@,
            DailyMetric::TopPathShare => "Top path share"@,
            DailyMetric::TopPathRequestsPerSourceIp => "Top path requests per source IP"@,
            DailyMetric::CorpusRequestsPerSourceIp => "Corpus requests per source IP"@,
            DailyMetric::SuccessShare => "2xx share"@,
            DailyMetric::ClientClosedRequest499Share => "499 share"@,
            DailyMetric::ServerErrorShare => "5xx share"@,
        }
    }

    pub fn label(self) -> (r: &'static str)
        ensures
            r@ == self.name(),
    {
        match self {
            DailyMetric::TotalRequests => "Total requests",
            DailyMetric::DistinctSourceIps => "Retained distinct source IPs",
            DailyMetric::TopPathShare => "Top path share",
            DailyMetric::TopPathRequestsPerSourceIp => "Top path requests per source IP",
            DailyMetric::CorpusRequestsPerSourceIp => "Corpus requests per source IP",
            DailyMetric::SuccessShare => "2xx share",
            DailyMetric::ClientClosedRequest499Share => "499 share",
            DailyMetric::ServerErrorShare => "5xx share",
        }
    }

    pub open spec fn share(self) -> bool {
        self == DailyMetric::TopPathShare || self == DailyMetric::SuccessShare || self
            == DailyMetric::ClientClosedRequest499Share || self == DailyMetric::ServerErrorShare
    }

    pub fn is_share(self) -> (r: bool)
        ensures
            r == self.share(),
    {
        match self {
            DailyMetric::TopPathShare => true,
            DailyMetric::SuccessShare => true,
            DailyMetric::ClientClosedRequest499Share => true,
            DailyMetric::ServerErrorShare => true,
            _ => false,
        }
    }

    /// The count that a metric is, where it is one.
    pub open spec fn counted(self, s: RequestConcentrationSummary) -> Option<u64> {
        match self {
            DailyMetric::TotalRequests => Some(s.total_requests),
            DailyMetric::DistinctSourceIps => Some(s.distinct_source_ips as u64),
            _ => None,
        }
    }

    fn count(self, s: &RequestConcentrationSummary) -> (r: Option<u64>)
        ensures
            r == self.counted(*s),
    {
        match self {
            DailyMetric::TotalRequests => Some(s.total_requests),
            DailyMetric::DistinctSourceIps => Some(s.distinct_source_ips as u64),
            _ => None,
        }
    }

    /// The value of a metric in a summary, or why there is none.
    pub open spec fn measured(self, summary: Option<RequestConcentrationSummary>) -> Result<
        Ratio,
        Seq<char>,
    > {
        match summary {
            None => Err("concentration summary unavailable"@),
            Some(s) => match self {
                DailyMetric::TotalRequests => Ok(
                    Ratio { numerator: s.total_requests, denominator: 1 },
                ),
                DailyMetric::DistinctSourceIps => Ok(
                    Ratio { numerator: s.distinct_source_ips as u64, denominator: 1 },
                ),
                DailyMetric::TopPathShare => match s.top_path {
                    None => Err("no retained top path"@),
                    Some(path) => if s.total_requests == 0 {
                        Err("no observed requests"@)
                    } else {
                        Ok(path.request_share)
                    },
                },
                DailyMetric::TopPathRequestsPerSourceIp => match s.top_path {
                    None => Err("no retained top path"@),
                    Some(path) => if path.distinct_source_ips == 0 {
                        Err("no observed sources on retained top path"@)
                    } else {
                        Ok(
                            Ratio {
                                numerator: path.requests,
                                denominator: path.distinct_source_ips as u64,
                            },
                        )
                    },
                },
                DailyMetric::CorpusRequestsPerSourceIp => if s.distinct_source_ips == 0 {
                    Err("no retained observed sources"@)
                } else {
                    Ok(
                        Ratio {
                            numerator: s.total_requests,
                            denominator: s.distinct_source_ips as u64,
                        },
                    )
                },
                _ => match s.response_outcomes {
                    None => Err("response status unavailable in profile or artifact"@),
                    Some(o) => if o.counts.total() == o.counts.unavailable {
                        Err("no recorded response status"@)
                    } else if self == DailyMetric::SuccessShare {
                        Ok(o.success_share)
                    } else if self == DailyMetric::ClientClosedRequest499Share {
                        Ok(o.client_closed_request_499_share)
                    } else {
                        Ok(o.server_error_share)
                    },
                },
            },
        }
    }

    pub fn measurement(self, summary: Option<&RequestConcentrationSummary>) -> (r: Result<
        Ratio,
        &'static str,
    >)
        requires
            summary matches Some(s) ==> readable(*s),
        ensures
            match (r, self.measured(given(summary))) {
                (Ok(x), Ok(y)) => x == y,
                (Err(x), Err(y)) => x@ == y,
                _ => false,
            },
    {
        let s = match summary {
            Some(s) => s,
            None => {
                return Err("concentration summary unavailable");
            },
        };
        match self {
            DailyMetric::TotalRequests => Ok(
                Ratio { numerator: s.total_requests, denominator: 1 },
            ),
            DailyMetric::DistinctSourceIps => Ok(
                Ratio { numerator: s.distinct_source_ips as u64, denominator: 1 },
            ),
            DailyMetric::TopPathShare => match &s.top_path {
                None => Err("no retained top path"),
                Some(path) => if s.total_requests == 0 {
                    Err("no observed requests")
                } else {
                    Ok(path.request_share)
                },
            },
            DailyMetric::TopPathRequestsPerSourceIp => match &s.top_path {
                None => Err("no retained top path"),
                Some(path) => if path.distinct_source_ips == 0 {
                    Err("no observed sources on retained top path")
                } else {
                    Ok(
                        Ratio {
                            numerator: path.requests,
                            denominator: path.distinct_source_ips as u64,
                        },
                    )
                },
            },
            DailyMetric::CorpusRequestsPerSourceIp => if s.distinct_source_ips == 0 {
                Err("no retained observed sources")
            } else {
                Ok(
                    Ratio {
                        numerator: s.total_requests,
                        denominator: s.distinct_source_ips as u64,
                    },
                )
            },
            _ => match &s.response_outcomes {
                None => Err("response status unavailable in profile or artifact"),
                Some(o) => {
                    if o.counts.total_observations() == o.counts.unavailable {
                        return Err("no recorded response status");
                    }
                    match self {
                        DailyMetric::SuccessShare => Ok(o.success_share),
                        DailyMetric::ClientClosedRequest499Share => Ok(
                            o.client_closed_request_499_share,
                        ),
                        _ => Ok(o.server_error_share),
                    }
                },
            },
        }
    }
}

/// Whether the responses of a summary can be counted.
pub open spec fn readable(s: RequestConcentrationSummary) -> bool {
    s.response_outcomes matches Some(o) ==> o.counts.total() <= u64::MAX
}

pub open spec fn given(s: Option<&RequestConcentrationSummary>) -> Option<
    RequestConcentrationSummary,
> {
    match s {
        Some(s) => Some(*s),
        None => None,
    }
}

#[derive(Clone, Copy, Debug, PartialEq, Eq, Structural)]
pub enum ComparisonBasis {
    Delta,
    Ratio,
}

impl ComparisonBasis {
    pub open spec fn name(self) -> Seq<char> {
        match self {
            ComparisonBasis::Delta => "Delta"@,
            ComparisonBasis::Ratio => "Ratio"@,
        }
    }

    fn label(self) -> (r: &'static str)
        ensures
            r@ == self.name(),
    {
        match self {
            ComparisonBasis::Delta => "Delta",
            ComparisonBasis::Ratio => "Ratio",
        }
    }
}

#[derive(Clone, Copy, Debug, PartialEq, Eq, Structural)]
pub enum ComparisonRelation {
    AtLeast,
    AtMost,
}

impl ComparisonRelation {
    pub open spec fn name(self) -> Seq<char> {
        match self {
            ComparisonRelation::AtLeast => "AtLeast"@,
            ComparisonRelation::AtMost => "AtMost"@,
        }
    }

    fn label(self) -> (r: &'static str)
        ensures
            r@ == self.name(),
    {
        match self {
            ComparisonRelation::AtLeast => "AtLeast",
            ComparisonRelation::AtMost => "AtMost",
        }
    }
}

/// The number of a comparison point: what is asked of it, and how it is written.
#[derive(Clone, Debug)]
pub struct PointValue {
    pub finite: bool,
    pub below_zero: bool,
    pub text: String,
}

#[derive(Clone, Debug)]
pub struct ComparisonPoint {
    pub basis: ComparisonBasis,
    pub relation: ComparisonRelation,
    pub value: PointValue,
}

/// The comparison points, at most one for each metric, in the places of the metrics. Supplied
/// points replace the defaults; without any, measurements are made and nothing is compared.
#[derive(Clone, Debug)]
pub struct DailyComparisonPoints {
    pub points: Vec<Option<ComparisonPoint>>,
}

/// Whether a point may be used: a finite number, and for a ratio none below zero.
pub open spec fn usable(point: ComparisonPoint) -> bool {
    point.value.finite && !(point.basis == ComparisonBasis::Ratio && point.value.below_zero)
}

/// Why a daily comparison was refused.
#[derive(Clone, Copy, Debug, PartialEq, Eq, Structural)]
pub enum DailyError {
    UnusablePoint,
    CountDelta,
}

impl DailyError {
    pub fn message(&self) -> (r: &'static str)
        ensures
            r@ == match self {
                DailyError::UnusablePoint =>
                    "comparison points must be finite; ratio comparison points must be nonnegative"@,
                DailyError::CountDelta => "daily count delta exceeds signed 64-bit range"@,
            },
    {
        match self {
            DailyError::UnusablePoint =>
                "comparison points must be finite; ratio comparison points must be nonnegative",
            DailyError::CountDelta => "daily count delta exceeds signed 64-bit range",
        }
    }
}

/// Whether a point has the given parts.
pub open spec fn is_point(
    p: Option<ComparisonPoint>,
    basis: ComparisonBasis,
    relation: ComparisonRelation,
    below_zero: bool,
    text: Seq<char>,
) -> bool {
    p matches Some(p) && p.basis == basis && p.relation == relation && p.value.finite
        && p.value.below_zero == below_zero && p.value.text@ == text
}

fn point(
    basis: ComparisonBasis,
    relation: ComparisonRelation,
    below_zero: bool,
    text: &str,
) -> (r: Option<ComparisonPoint>)
    ensures
        is_point(r, basis, relation, below_zero, text@),
{
    Some(
        ComparisonPoint {
            basis,
            relation,
            value: PointValue { finite: true, below_zero, text: text.to_owned() },
        },
    )
}

impl Default for DailyComparisonPoints {
    fn default() -> (r: Self)
        ensures
            r.wf(),
            is_point(
                r.at(DailyMetric::TopPathRequestsPerSourceIp),
                ComparisonBasis::Ratio,
                ComparisonRelation::AtLeast,
                false,
                "10"@,
            ),
            is_point(
                r.at(DailyMetric::TopPathShare),
                ComparisonBasis::Delta,
                ComparisonRelation::AtLeast,
                false,
                "0.2"@,
            ),
            is_point(
                r.at(DailyMetric::SuccessShare),
                ComparisonBasis::Delta,
                ComparisonRelation::AtMost,
                true,
                "-0.25"@,
            ),
            is_point(
                r.at(DailyMetric::ClientClosedRequest499Share),
                ComparisonBasis::Delta,
                ComparisonRelation::AtLeast,
                false,
                "0.1"@,
            ),
            r.at(DailyMetric::TotalRequests) is None,
            r.at(DailyMetric::DistinctSourceIps) is None,
            r.at(DailyMetric::CorpusRequestsPerSourceIp) is None,
            r.at(DailyMetric::ServerErrorShare) is None,
    {
        DailyComparisonPoints {
            points: vec![
                None,
                None,
                point(ComparisonBasis::Delta, ComparisonRelation::AtLeast, false, "0.2"),
                point(ComparisonBasis::Ratio, ComparisonRelation::AtLeast, false, "10"),
                None,
                point(ComparisonBasis::Delta, ComparisonRelation::AtMost, true, "-0.25"),
                point(ComparisonBasis::Delta, ComparisonRelation::AtLeast, false, "0.1"),
                None,
            ],
        }
    }
}

impl DailyComparisonPoints {
    pub open spec fn wf(&self) -> bool {
        self.points@.len() == METRICS
    }

    pub open spec fn at(&self, metric: DailyMetric) -> Option<ComparisonPoint> {
        self.points@[metric.place()]
    }

    /// No points at all.
    pub fn none() -> (r: Self)
        ensures
            r.wf(),
            forall|m: DailyMetric| (#[trigger] r.at(m)) is None,
    {
        DailyComparisonPoints {
            points: vec![None, None, None, None, None, None, None, None],
        }
    }

    /// Sets the point of a metric.
    pub fn set(&mut self, metric: DailyMetric, point: ComparisonPoint)
        requires
            old(self).wf(),
        ensures
            final(self).wf(),
            final(self).at(metric) == Some(point),
            forall|m: DailyMetric| m != metric ==> #[trigger] final(self).at(m) == old(self).at(m),
    {
        self.points.set(metric.rank(), Some(point));
    }

    pub open spec fn valid(&self) -> bool {
        forall|i: int|
            0 <= i < self.points@.len() ==> ((#[trigger] self.points@[i]) matches Some(p)
                ==> usable(p))
    }

    pub fn validate(&self) -> (r: Result<(), DailyError>)
        ensures
            r is Ok == self.valid(),
            r matches Err(e) ==> e == DailyError::UnusablePoint,
    {
        let mut i: usize = 0;
        while i < self.points.len()
            invariant
                i <= self.points@.len(),
                forall|j: int|
                    0 <= j < i ==> ((#[trigger] self.points@[j]) matches Some(p) ==> usable(p)),
            decreases self.points.len() - i,
        {
            if let Some(point) = &self.points[i] {
                let negative_ratio = match point.basis {
                    ComparisonBasis::Ratio => point.value.below_zero,
                    ComparisonBasis::Delta => false,
                };
                if !point.value.finite || negative_ratio {
                    assert(self.points@[i as int] == Some(*point));
                    return Err(DailyError::UnusablePoint);
                }
            }
            i = i + 1;
        }
        Ok(())
    }
}

/// A metric in two runs. The change and the quotient of the two values exist where
/// `has_delta` and `has_ratio` say so.
#[derive(Clone, Debug)]
pub struct DailyMetricDelta {
    pub baseline: Option<Ratio>,
    pub current: Option<Ratio>,
    /// The change of a count, exactly.
    pub counts: Option<NumericDelta>,
    pub unavailable_reasons: Vec<String>,
}

pub open spec fn is_zero(value: Ratio) -> bool {
    value.numerator == 0 || value.denominator == 0
}

impl DailyMetricDelta {
    pub open spec fn delta_known(&self) -> bool {
        self.baseline is Some && self.current is Some
    }

    /// The current value over the baseline, in either direction; not for a baseline of zero.
    pub open spec fn ratio_known(&self) -> bool {
        self.delta_known() && !is_zero(self.baseline.unwrap())
    }

    pub fn has_delta(&self) -> (r: bool)
        ensures
            r == self.delta_known(),
    {
        self.baseline.is_some() && self.current.is_some()
    }

    pub fn has_ratio(&self) -> (r: bool)
        ensures
            r == self.ratio_known(),
    {
        match (self.baseline, self.current) {
            (Some(b), Some(_)) => b.numerator != 0 && b.denominator != 0,
            _ => false,
        }
    }
}

/// What keeps a metric from being compared.
pub open spec fn reasons_for(
    metric: DailyMetric,
    b: Option<RequestConcentrationSummary>,
    c: Option<RequestConcentrationSummary>,
) -> Seq<Seq<char>> {
    let r0: Seq<Seq<char>> = seq![];
    let r1 = match metric.measured(b) {
        Err(reason) => r0.push("baseline: "@ + reason),
        Ok(_) => r0,
    };
    let r2 = match metric.measured(c) {
        Err(reason) => r1.push("current: "@ + reason),
        Ok(_) => r1,
    };
    match metric.measured(b) {
        Ok(value) => if is_zero(value) {
            r2.push("current/baseline ratio unavailable: baseline is zero"@)
        } else {
            r2
        },
        Err(_) => r2,
    }
}

/// The two counts of a metric, where it is a count in both runs.
pub open spec fn count_pair(
    metric: DailyMetric,
    b: Option<RequestConcentrationSummary>,
    c: Option<RequestConcentrationSummary>,
) -> Option<(u64, u64)> {
    match (b, c) {
        (Some(x), Some(y)) => match (metric.counted(x), metric.counted(y)) {
            (Some(m), Some(n)) => Some((m, n)),
            _ => None,
        },
        _ => None,
    }
}

/// Whether the change of a metric's count is within range.
pub open spec fn change_fits(
    metric: DailyMetric,
    b: Option<RequestConcentrationSummary>,
    c: Option<RequestConcentrationSummary>,
) -> bool {
    count_pair(metric, b, c) matches Some((m, n)) ==> i64::MIN <= n - m <= i64::MAX
}

pub open spec fn found(value: Result<Ratio, Seq<char>>) -> Option<Ratio> {
    match value {
        Ok(v) => Some(v),
        Err(_) => None,
    }
}

/// Whether an entry says how a metric stands in two runs.
pub open spec fn is_metric_delta(
    r: DailyMetricDelta,
    metric: DailyMetric,
    b: Option<RequestConcentrationSummary>,
    c: Option<RequestConcentrationSummary>,
) -> bool {
    &&& r.baseline == found(metric.measured(b))
    &&& r.current == found(metric.measured(c))
    &&& texts(r.unavailable_reasons@) == reasons_for(metric, b, c)
    &&& match count_pair(metric, b, c) {
        Some((m, n)) => r.counts == Some(
            NumericDelta { baseline: m, current: n, delta: (n - m) as i64 },
        ),
        None => r.counts is None,
    }
}

fn push_text(list: &mut Vec<String>, text: String)
    ensures
        texts(final(list)@) == texts(old(list)@).push(text@),
{
    let ghost before = list@;
    list.push(text);
    assert(texts(list@) =~= texts(before).push(text@));
}

fn metric_delta(
    metric: DailyMetric,
    baseline: Option<&RequestConcentrationSummary>,
    current: Option<&RequestConcentrationSummary>,
) -> (r: Result<DailyMetricDelta, DailyError>)
    requires
        baseline matches Some(s) ==> readable(*s),
        current matches Some(s) ==> readable(*s),
    ensures
        match r {
            Ok(delta) => is_metric_delta(delta, metric, given(baseline), given(current))
                && change_fits(metric, given(baseline), given(current)),
            Err(e) => e == DailyError::CountDelta && !change_fits(
                metric,
                given(baseline),
                given(current),
            ),
        },
{
    let b = metric.measurement(baseline);
    let c = metric.measurement(current);
    let mut reasons: Vec<String> = Vec::new();
    assert(texts(reasons@) =~= Seq::<Seq<char>>::empty());
    let before = match b {
        Ok(value) => Some(value),
        Err(reason) => {
            let mut text = "baseline: ".to_owned();
            text.append(reason);
            push_text(&mut reasons, text);
            None
        },
    };
    let after = match c {
        Ok(value) => Some(value),
        Err(reason) => {
            let mut text = "current: ".to_owned();
            text.append(reason);
            push_text(&mut reasons, text);
            None
        },
    };
    if let Some(value) = before {
        if value.numerator == 0 || value.denominator == 0 {
            push_text(
                &mut reasons,
                "current/baseline ratio unavailable: baseline is zero".to_owned(),
            );
        }
    }
    let pair = match (baseline, current) {
        (Some(x), Some(y)) => match (metric.count(x), metric.count(y)) {
            (Some(m), Some(n)) => Some((m, n)),
            _ => None,
        },
        _ => None,
    };
    let counts = match pair {
        Some((m, n)) => {
            let change: i128 = n as i128 - m as i128;
            if change < i64::MIN as i128 || change > i64::MAX as i128 {
                return Err(DailyError::CountDelta);
            }
            Some(NumericDelta { baseline: m, current: n, delta: change as i64 })
        },
        None => None,
    };
    Ok(
        DailyMetricDelta {
            baseline: before,
            current: after,
            counts,
            unavailable_reasons: reasons,
        },
    )
}

/// Whether there is one entry for each metric, in the places of the metrics.
pub open spec fn are_measurements(
    r: Seq<DailyMetricDelta>,
    b: Option<RequestConcentrationSummary>,
    c: Option<RequestConcentrationSummary>,
) -> bool {
    r.len() == METRICS && forall|i: int|
        0 <= i < METRICS ==> is_metric_delta(#[trigger] r[i], all_metrics()[i], b, c)
}

/// Whether the changes of all counts are within range.
pub open spec fn changes_fit(
    b: Option<RequestConcentrationSummary>,
    c: Option<RequestConcentrationSummary>,
) -> bool {
    forall|m: DailyMetric| #[trigger] change_fits(m, b, c)
}

/// Measures each metric in two runs. An out-of-range change is refused rather than wrapped.
pub fn measure_daily_metrics(
    baseline: Option<&RequestConcentrationSummary>,
    current: Option<&RequestConcentrationSummary>,
) -> (r: Result<Vec<DailyMetricDelta>, DailyError>)
    requires
        baseline matches Some(s) ==> readable(*s),
        current matches Some(s) ==> readable(*s),
    ensures
        match r {
            Ok(list) => changes_fit(given(baseline), given(current)) && are_measurements(
                list@,
                given(baseline),
                given(current),
            ),
            Err(e) => e == DailyError::CountDelta && !changes_fit(given(baseline), given(current)),
        },
{
    let metrics = DailyMetric::all();
    let mut r: Vec<DailyMetricDelta> = Vec::new();
    let mut i: usize = 0;
    while i < metrics.len()
        invariant
            metrics@ == all_metrics(),
            i <= METRICS,
            r@.len() == i,
            baseline matches Some(s) ==> readable(*s),
            current matches Some(s) ==> readable(*s),
            forall|j: int|
                0 <= j < i ==> is_metric_delta(
                    #[trigger] r@[j],
                    all_metrics()[j],
                    given(baseline),
                    given(current),
                ),
            forall|j: int|
                0 <= j < i ==> change_fits(
                    #[trigger] all_metrics()[j],
                    given(baseline),
                    given(current),
                ),
        decreases metrics.len() - i,
    {
        match metric_delta(metrics[i], baseline, current) {
            Ok(delta) => r.push(delta),
            Err(e) => {
                return Err(e);
            },
        }
        i = i + 1;
    }
    proof {
        assert forall|m: DailyMetric| #[trigger]
            change_fits(m, given(baseline), given(current)) by {
            assert(all_metrics()[m.place()] == m);
        }
    }
    Ok(r)
}

#[derive(Clone, Debug)]
pub struct PointEvaluation {
    pub crossed: Option<bool>,
    pub unavailable_reason: Option<String>,
}

/// Coverage as counts; paths and source values are never copied.
#[derive(Clone, Copy, Debug, PartialEq, Eq, Structural)]
pub struct DailyMeasurementCoverage {
    pub requests_without_uri_path: u64,
    pub requests_without_source_ip: u64,
    pub paths_beyond_tracking_cap: u64,
    pub source_ips_beyond_tracking_cap: u64,
    pub source_path_pairs_beyond_tracking_cap: u64,
    pub top_path_requests: Option<u64>,
    pub top_path_distinct_source_ips: Option<usize>,
    pub response_observations: Option<u64>,
    pub response_status_unavailable: Option<u64>,
}

pub open spec fn is_coverage(
    r: DailyMeasurementCoverage,
    s: RequestConcentrationSummary,
) -> bool {
    &&& r.requests_without_uri_path == s.requests_without_uri_path
    &&& r.requests_without_source_ip == s.requests_without_source_ip
    &&& r.paths_beyond_tracking_cap == s.paths_beyond_tracking_cap
    &&& r.source_ips_beyond_tracking_cap == s.source_ips_beyond_tracking_cap
    &&& r.source_path_pairs_beyond_tracking_cap == s.source_path_pairs_beyond_tracking_cap
    &&& match s.top_path {
        Some(p) => r.top_path_requests == Some(p.requests) && r.top_path_distinct_source_ips
            == Some(p.distinct_source_ips),
        None => r.top_path_requests is None && r.top_path_distinct_source_ips is None,
    }
    &&& match s.response_outcomes {
        Some(o) => r.response_observations == Some(o.counts.total() as u64)
            && r.response_status_unavailable == Some(o.counts.unavailable),
        None => r.response_observations is None && r.response_status_unavailable is None,
    }
}

impl DailyMeasurementCoverage {
    pub fn of(s: &RequestConcentrationSummary) -> (r: Self)
        requires
            readable(*s),
        ensures
            is_coverage(r, *s),
    {
        let (top_requests, top_sources) = match &s.top_path {
            Some(p) => (Some(p.requests), Some(p.distinct_source_ips)),
            None => (None, None),
        };
        let (observations, unavailable) = match &s.response_outcomes {
            Some(o) => (Some(o.counts.total_observations()), Some(o.counts.unavailable)),
            None => (None, None),
        };
        DailyMeasurementCoverage {
            requests_without_uri_path: s.requests_without_uri_path,
            requests_without_source_ip: s.requests_without_source_ip,
            paths_beyond_tracking_cap: s.paths_beyond_tracking_cap,
            source_ips_beyond_tracking_cap: s.source_ips_beyond_tracking_cap,
            source_path_pairs_beyond_tracking_cap: s.source_path_pairs_beyond_tracking_cap,
            top_path_requests: top_requests,
            top_path_distinct_source_ips: top_sources,
            response_observations: observations,
            response_status_unavailable: unavailable,
        }
    }
}

#[derive(Debug)]
pub struct DailyComparison {
    pub safety_note: String,
    pub measurement_note: String,
    pub comparison_points: DailyComparisonPoints,
    /// One for each metric, in the places of the metrics.
    pub measurements: Vec<DailyMetricDelta>,
    pub baseline_coverage: Option<DailyMeasurementCoverage>,
    pub current_coverage: Option<DailyMeasurementCoverage>,
    /// One for each metric with a point, in the places of the metrics.
    pub evaluations: Vec<Option<PointEvaluation>>,
    pub configured_points: usize,
    pub evaluated_points: usize,
    pub unavailable_points: usize,
    pub crossed_points: Vec<DailyMetric>,
    pub crossed_point_count: usize,
}

/// Whether the value that a point speaks of is known.
pub open spec fn value_known(point: ComparisonPoint, measurement: DailyMetricDelta) -> bool {
    match point.basis {
        ComparisonBasis::Delta => measurement.delta_known(),
        ComparisonBasis::Ratio => measurement.ratio_known(),
    }
}

/// How a point comes out: as the caller found, where its value is known.
pub open spec fn is_evaluation(
    r: Option<PointEvaluation>,
    point: Option<ComparisonPoint>,
    measurement: DailyMetricDelta,
    holds: bool,
) -> bool {
    match (r, point) {
        (None, None) => true,
        (Some(e), Some(p)) => if value_known(p, measurement) {
            e.crossed == Some(holds) && e.unavailable_reason is None
        } else {
            e.crossed is None && opt_text(e.unavailable_reason) == Some(
                join_texts(texts(measurement.unavailable_reasons@), "; "@),
            )
        },
        _ => false,
    }
}

fn evaluate(
    point: &Option<ComparisonPoint>,
    measurement: &DailyMetricDelta,
    holds: bool,
) -> (r: Option<PointEvaluation>)
    ensures
        is_evaluation(r, *point, *measurement, holds),
{
    match point {
        None => None,
        Some(p) => {
            let known = match p.basis {
                ComparisonBasis::Delta => measurement.has_delta(),
                ComparisonBasis::Ratio => measurement.has_ratio(),
            };
            if known {
                Some(PointEvaluation { crossed: Some(holds), unavailable_reason: None })
            } else {
                Some(
                    PointEvaluation {
                        crossed: None,
                        unavailable_reason: Some(join(&measurement.unavailable_reasons, "; ")),
                    },
                )
            }
        },
    }
}

/// Whether a point was crossed.
pub open spec fn is_crossed(e: Option<PointEvaluation>) -> bool {
    e matches Some(e) && e.crossed == Some(true)
}

/// The metrics of the first `n` places whose point was crossed.
pub open spec fn crossed_up_to(evaluations: Seq<Option<PointEvaluation>>, n: nat) -> Seq<
    DailyMetric,
>
    decreases n,
{
    if n == 0 {
        seq![]
    } else {
        let before = crossed_up_to(evaluations, (n - 1) as nat);
        if is_crossed(evaluations[n - 1]) {
            before.push(all_metrics()[n - 1])
        } else {
            before
        }
    }
}

/// How many of the first `n` places have a point.
pub open spec fn configured_up_to(evaluations: Seq<Option<PointEvaluation>>, n: nat) -> nat
    decreases n,
{
    if n == 0 {
        0
    } else {
        configured_up_to(evaluations, (n - 1) as nat) + if evaluations[n - 1] is Some {
            1nat
        } else {
            0nat
        }
    }
}

/// How many of the first `n` places have a point that could not be evaluated.
pub open spec fn unavailable_up_to(evaluations: Seq<Option<PointEvaluation>>, n: nat) -> nat
    decreases n,
{
    if n == 0 {
        0
    } else {
        unavailable_up_to(evaluations, (n - 1) as nat) + if evaluations[n - 1] matches Some(e)
            && e.crossed is None {
            1nat
        } else {
            0nat
        }
    }
}

/// Whether a comparison evaluates its points on two runs, given which points' relations hold.
pub open spec fn is_comparison(
    r: DailyComparison,
    b: Option<RequestConcentrationSummary>,
    c: Option<RequestConcentrationSummary>,
    points: DailyComparisonPoints,
    holds: Seq<bool>,
) -> bool {
    let n = METRICS as nat;
    let e = r.evaluations@;
    &&& r.safety_note@ == COMPARISON_POINT_NOTE@
    &&& r.measurement_note@ == MEASUREMENT_NOTE@
    &&& r.comparison_points == points
    &&& are_measurements(r.measurements@, b, c)
    &&& e.len() == METRICS
    &&& forall|i: int|
        0 <= i < METRICS ==> is_evaluation(
            #[trigger] e[i],
            points.points@[i],
            r.measurements@[i],
            holds[i],
        )
    &&& r.configured_points == configured_up_to(e, n)
    &&& r.unavailable_points == unavailable_up_to(e, n)
    &&& r.evaluated_points + r.unavailable_points == r.configured_points
    &&& r.crossed_points@ == crossed_up_to(e, n)
    &&& r.crossed_point_count == r.crossed_points@.len()
    &&& match b {
        Some(s) => r.baseline_coverage matches Some(x) && is_coverage(x, s),
        None => r.baseline_coverage is None,
    }
    &&& match c {
        Some(s) => r.current_coverage matches Some(x) && is_coverage(x, s),
        None => r.current_coverage is None,
    }
}

/// Compares two runs. `holds` says, in the places of the metrics, whether the known value of a
/// metric's point stands to the point as its relation asks.
pub fn compare_daily_metrics(
    baseline: Option<&RequestConcentrationSummary>,
    current: Option<&RequestConcentrationSummary>,
    points: DailyComparisonPoints,
    holds: &Vec<bool>,
) -> (r: Result<DailyComparison, DailyError>)
    requires
        baseline matches Some(s) ==> readable(*s),
        current matches Some(s) ==> readable(*s),
        points.wf(),
        holds@.len() == METRICS,
    ensures
        match r {
            Ok(comparison) => points.valid() && changes_fit(given(baseline), given(current))
                && is_comparison(
                comparison,
                given(baseline),
                given(current),
                points,
                holds@,
            ),
            Err(DailyError::UnusablePoint) => !points.valid(),
            Err(DailyError::CountDelta) => points.valid() && !changes_fit(
                given(baseline),
                given(current),
            ),
        },
{
    if let Err(e) = points.validate() {
        return Err(e);
    }
    let measurements = match measure_daily_metrics(baseline, current) {
        Ok(list) => list,
        Err(e) => {
            return Err(e);
        },
    };
    let metrics = DailyMetric::all();
    let mut evaluations: Vec<Option<PointEvaluation>> = Vec::new();
    let mut crossed: Vec<DailyMetric> = Vec::new();
    let mut configured: usize = 0;
    let mut unavailable: usize = 0;
    let mut i: usize = 0;
    while i < METRICS
        invariant
            metrics@ == all_metrics(),
            points.wf(),
            holds@.len() == METRICS,
            measurements@.len() == METRICS,
            i <= METRICS,
            evaluations@.len() == i,
            forall|j: int|
                0 <= j < i ==> is_evaluation(
                    #[trigger] evaluations@[j],
                    points.points@[j],
                    measurements@[j],
                    holds@[j],
                ),
            crossed@ == crossed_up_to(evaluations@, i as nat),
            configured == configured_up_to(evaluations@, i as nat),
            unavailable == unavailable_up_to(evaluations@, i as nat),
            unavailable <= configured <= i,
        decreases METRICS - i,
    {
        let evaluation = evaluate(&points.points[i], &measurements[i], holds[i]);
        let ghost before = evaluations@;
        if let Some(e) = &evaluation {
            configured = configured + 1;
            match e.crossed {
                Some(true) => crossed.push(metrics[i]),
                Some(false) => {},
                None => {
                    unavailable = unavailable + 1;
                },
            }
        }
        evaluations.push(evaluation);
        proof {
            assert(evaluations@.take(before.len() as int) =~= before);
            lemma_same_prefix(before, evaluations@, i as nat);
        }
        i = i + 1;
    }
    let baseline_coverage = match baseline {
        Some(s) => Some(DailyMeasurementCoverage::of(s)),
        None => None,
    };
    let current_coverage = match current {
        Some(s) => Some(DailyMeasurementCoverage::of(s)),
        None => None,
    };
    Ok(
        DailyComparison {
            safety_note: COMPARISON_POINT_NOTE.to_owned(),
            measurement_note: MEASUREMENT_NOTE.to_owned(),
            comparison_points: points,
            measurements,
            baseline_coverage,
            current_coverage,
            evaluations,
            configured_points: configured,
            evaluated_points: configured - unavailable,
            unavailable_points: unavailable,
            crossed_point_count: crossed.len(),
            crossed_points: crossed,
        },
    )
}

proof fn lemma_same_prefix(
    a: Seq<Option<PointEvaluation>>,
    b: Seq<Option<PointEvaluation>>,
    n: nat,
)
    requires
        n <= a.len() <= b.len(),
        b.take(a.len() as int) == a,
    ensures
        crossed_up_to(a, n) == crossed_up_to(b, n),
        configured_up_to(a, n) == configured_up_to(b, n),
        unavailable_up_to(a, n) == unavailable_up_to(b, n),
    decreases n,
{
    if n > 0 {
        lemma_same_prefix(a, b, (n - 1) as nat);
        assert(b.take(a.len() as int)[n - 1] == b[n - 1]);
    }
}

/// A run set against itself moves no count.
pub proof fn a_run_does_not_differ_from_itself(
    metric: DailyMetric,
    run: RequestConcentrationSummary,
)
    ensures
        change_fits(metric, Some(run), Some(run)),
        forall|r: DailyMetricDelta| #[trigger]
            is_metric_delta(r, metric, Some(run), Some(run)) ==> r.baseline == r.current
                && (r.counts matches Some(n) ==> n.delta == 0),
{
}

/// Without a summary of one of the runs no point is evaluated and none is crossed.
pub proof fn missing_runs_cross_no_point(
    r: DailyComparison,
    b: Option<RequestConcentrationSummary>,
    c: Option<RequestConcentrationSummary>,
    points: DailyComparisonPoints,
    holds: Seq<bool>,
)
    requires
        is_comparison(r, b, c, points, holds),
        b is None || c is None,
    ensures
        r.evaluated_points == 0,
        r.crossed_points@.len() == 0,
{
    lemma_nothing_known(r, b, c, points, holds, METRICS as nat);
}

proof fn lemma_nothing_known(
    r: DailyComparison,
    b: Option<RequestConcentrationSummary>,
    c: Option<RequestConcentrationSummary>,
    points: DailyComparisonPoints,
    holds: Seq<bool>,
    n: nat,
)
    requires
        is_comparison(r, b, c, points, holds),
        b is None || c is None,
        n <= METRICS,
    ensures
        configured_up_to(r.evaluations@, n) == unavailable_up_to(r.evaluations@, n),
        crossed_up_to(r.evaluations@, n).len() == 0,
    decreases n,
{
    if n > 0 {
        lemma_nothing_known(r, b, c, points, holds, (n - 1) as nat);
        let i = n - 1;
        assert(is_metric_delta(r.measurements@[i], all_metrics()[i], b, c));
        assert(is_evaluation(
            r.evaluations@[i],
            points.points@[i],
            r.measurements@[i],
            holds[i],
        ));
    }
}

/// How the known values of a metric are printed: the two values, their difference and their
/// quotient. Shares are printed as percentages.
#[derive(Clone, Debug)]
pub struct NumberTexts {
    pub baseline: String,
    pub current: String,
    pub delta: String,
    pub ratio: String,
}

pub open spec fn shown(known: bool, text: Seq<char>) -> Seq<char> {
    if known {
        text
    } else {
        "unavailable"@
    }
}

fn number<'a>(known: bool, text: &'a str) -> (r: &'a str)
    ensures
        r@ == shown(known, text@),
{
    if known {
        text
    } else {
        "unavailable"
    }
}

/// The two values of a metric and their difference, as printed.
pub open spec fn values_line(m: DailyMetricDelta, t: NumberTexts) -> Seq<char> {
    match m.counts {
        Some(n) => decimal(n.baseline as nat) + " / "@ + decimal(n.current as nat) + " / "@
            + signed_decimal(n.delta as int),
        None => shown(m.baseline is Some, t.baseline@) + " / "@ + shown(
            m.current is Some,
            t.current@,
        ) + " / "@ + shown(m.delta_known(), t.delta@),
    }
}

pub open spec fn measurement_line(metric: DailyMetric, m: DailyMetricDelta, t: NumberTexts) -> Seq<
    char,
> {
    "  "@ + metric.name() + " baseline / current / delta: "@ + values_line(m, t) + (
    if metric.share() {
        " (shares %, delta percentage points)"@
    } else {
        ""@
    }) + "; current/baseline ratio: "@ + shown(m.ratio_known(), t.ratio@)
}

fn print_values(m: &DailyMetricDelta, t: &NumberTexts) -> (r: String)
    ensures
        r@ == values_line(*m, *t),
{
    match &m.counts {
        Some(n) => {
            let mut r = decimal_text(n.baseline);
            r.append(" / ");
            push_decimal(&mut r, n.current);
            r.append(" / ");
            r.append(signed_text(n.delta).as_str());
            r
        },
        None => {
            let mut r = number(m.baseline.is_some(), t.baseline.as_str()).to_owned();
            r.append(" / ");
            r.append(number(m.current.is_some(), t.current.as_str()));
            r.append(" / ");
            r.append(number(m.has_delta(), t.delta.as_str()));
            r
        },
    }
}

fn print_measurement(metric: DailyMetric, m: &DailyMetricDelta, t: &NumberTexts) -> (r: String)
    ensures
        r@ == measurement_line(metric, *m, *t),
{
    let mut r = "  ".to_owned();
    r.append(metric.label());
    r.append(" baseline / current / delta: ");
    r.append(print_values(m, t).as_str());
    r.append(
        if metric.is_share() {
            " (shares %, delta percentage points)"
        } else {
            ""
        },
    );
    r.append("; current/baseline ratio: ");
    r.append(number(m.has_ratio(), t.ratio.as_str()));
    r
}

/// The first `n` reasons of a metric, one line each.
pub open spec fn reason_lines(reasons: Seq<Seq<char>>, n: nat) -> Seq<Seq<char>>
    decreases n,
{
    if n == 0 {
        seq![]
    } else {
        reason_lines(reasons, (n - 1) as nat).push("    Unavailable: "@ + reasons[n - 1])
    }
}

/// The lines of the first `n` metrics.
pub open spec fn metric_lines(
    measurements: Seq<DailyMetricDelta>,
    numbers: Seq<NumberTexts>,
    n: nat,
) -> Seq<Seq<char>>
    decreases n,
{
    if n == 0 {
        seq![]
    } else {
        let reasons = texts(measurements[n - 1].unavailable_reasons@);
        metric_lines(measurements, numbers, (n - 1) as nat).push(
            measurement_line(all_metrics()[n - 1], measurements[n - 1], numbers[n - 1]),
        ) + reason_lines(reasons, reasons.len())
    }
}

pub open spec fn optional_count(n: Option<u64>) -> Seq<char> {
    match n {
        Some(n) => decimal(n as nat),
        None => "unavailable"@,
    }
}

fn count_text(n: Option<u64>) -> (r: String)
    ensures
        r@ == optional_count(n),
{
    match n {
        Some(n) => decimal_text(n),
        None => "unavailable".to_owned(),
    }
}

pub open spec fn widened(n: Option<usize>) -> Option<u64> {
    match n {
        Some(n) => Some(n as u64),
        None => None,
    }
}

pub open spec fn coverage_line(side: Seq<char>, coverage: Option<DailyMeasurementCoverage>) -> Seq<
    char,
> {
    match coverage {
        Some(c) => "  "@ + side + " coverage: missing path/source "@ + decimal(
            c.requests_without_uri_path as nat,
        ) + " / "@ + decimal(c.requests_without_source_ip as nat)
            + "; cap omissions paths/sources/pairs "@ + decimal(c.paths_beyond_tracking_cap as nat)
            + " / "@ + decimal(c.source_ips_beyond_tracking_cap as nat) + " / "@ + decimal(
            c.source_path_pairs_beyond_tracking_cap as nat,
        ) + "; retained top-path requests/sources "@ + optional_count(c.top_path_requests)
            + " / "@ + optional_count(widened(c.top_path_distinct_source_ips))
            + "; response observations/unavailable "@ + optional_count(c.response_observations)
            + " / "@ + optional_count(c.response_status_unavailable),
        None => "  "@ + side + " coverage: unavailable (concentration summary missing)"@,
    }
}

fn print_coverage(side: &str, coverage: &Option<DailyMeasurementCoverage>) -> (r: String)
    ensures
        r@ == coverage_line(side@, *coverage),
{
    let mut r = "  ".to_owned();
    r.append(side);
    match coverage {
        Some(c) => {
            r.append(" coverage: missing path/source ");
            push_decimal(&mut r, c.requests_without_uri_path);
            r.append(" / ");
            push_decimal(&mut r, c.requests_without_source_ip);
            r.append("; cap omissions paths/sources/pairs ");
            push_decimal(&mut r, c.paths_beyond_tracking_cap);
            r.append(" / ");
            push_decimal(&mut r, c.source_ips_beyond_tracking_cap);
            r.append(" / ");
            push_decimal(&mut r, c.source_path_pairs_beyond_tracking_cap);
            r.append("; retained top-path requests/sources ");
            r.append(count_text(c.top_path_requests).as_str());
            r.append(" / ");
            let sources = match c.top_path_distinct_source_ips {
                Some(n) => Some(n as u64),
                None => None,
            };
            r.append(count_text(sources).as_str());
            r.append("; response observations/unavailable ");
            r.append(count_text(c.response_observations).as_str());
            r.append(" / ");
            r.append(count_text(c.response_status_unavailable).as_str());
        },
        None => {
            r.append(" coverage: unavailable (concentration summary missing)");
        },
    }
    r
}

pub open spec fn outcome_text(e: PointEvaluation) -> Seq<char> {
    match e.crossed {
        Some(true) => "true"@,
        Some(false) => "false"@,
        None => "unavailable ("@ + (match e.unavailable_reason {
            Some(reason) => reason@,
            None => "measurement missing"@,
        }) + ")"@,
    }
}

pub open spec fn point_line(metric: DailyMetric, p: ComparisonPoint, e: PointEvaluation) -> Seq<
    char,
> {
    "  Comparison point "@ + metric.name() + ": "@ + p.basis.name() + " "@ + p.relation.name() + " "@
        + p.value.text@ + "; crossed: "@ + outcome_text(e)
}

fn print_outcome(e: &PointEvaluation) -> (r: String)
    ensures
        r@ == outcome_text(*e),
{
    match e.crossed {
        Some(true) => "true".to_owned(),
        Some(false) => "false".to_owned(),
        None => {
            let mut r = "unavailable (".to_owned();
            match &e.unavailable_reason {
                Some(reason) => r.append(reason.as_str()),
                None => r.append("measurement missing"),
            }
            r.append(")");
            r
        },
    }
}

fn print_point(metric: DailyMetric, p: &ComparisonPoint, e: &PointEvaluation) -> (r: String)
    ensures
        r@ == point_line(metric, *p, *e),
{
    let mut r = "  Comparison point ".to_owned();
    r.append(metric.label());
    r.append(": ");
    r.append(p.basis.label());
    r.append(" ");
    r.append(p.relation.label());
    r.append(" ");
    r.append(p.value.text.as_str());
    r.append("; crossed: ");
    r.append(print_outcome(e).as_str());
    r
}

/// The lines of the points of the first `n` metrics.
pub open spec fn point_lines(
    points: Seq<Option<ComparisonPoint>>,
    evaluations: Seq<Option<PointEvaluation>>,
    n: nat,
) -> Seq<Seq<char>>
    decreases n,
{
    if n == 0 {
        seq![]
    } else {
        let before = point_lines(points, evaluations, (n - 1) as nat);
        match (points[n - 1], evaluations[n - 1]) {
            (Some(p), Some(e)) => before.push(point_line(all_metrics()[n - 1], p, e)),
            _ => before,
        }
    }
}

pub open spec fn metric_names(list: Seq<DailyMetric>) -> Seq<Seq<char>> {
    list.map_values(|m: DailyMetric| m.name())
}

pub open spec fn count_line(r: DailyComparison) -> Seq<char> {
    "  Comparison points crossed: "@ + decimal(r.crossed_point_count as nat) + " (configured: "@
        + decimal(r.configured_points as nat) + "; evaluated: "@ + decimal(
        r.evaluated_points as nat,
    ) + "; unavailable: "@ + decimal(r.unavailable_points as nat) + ")"@
}

pub open spec fn crossed_line(crossed: Seq<DailyMetric>) -> Seq<char> {
    "  Crossed comparison points: "@ + if crossed.len() == 0 {
        "none"@
    } else {
        join_texts(metric_names(crossed), ", "@)
    }
}

/// The lines in which a comparison is reported.
pub open spec fn report_lines(r: DailyComparison, numbers: Seq<NumberTexts>) -> Seq<Seq<char>> {
    let n = METRICS as nat;
    let l0: Seq<Seq<char>> = seq!["Daily metric comparison (descriptive counts only):"@];
    let l1 = l0 + metric_lines(r.measurements@, numbers, n);
    let l2 = l1.push(coverage_line("Baseline"@, r.baseline_coverage)).push(
        coverage_line("Current"@, r.current_coverage),
    );
    let l3 = l2 + point_lines(r.comparison_points.points@, r.evaluations@, n);
    l3.push(count_line(r)).push(crossed_line(r.crossed_points@)).push(r.measurement_note@).push(
        r.safety_note@,
    )
}

/// A comparison with an entry for each metric.
pub open spec fn complete(r: DailyComparison) -> bool {
    &&& r.measurements@.len() == METRICS
    &&& r.evaluations@.len() == METRICS
    &&& r.comparison_points.wf()
}

impl DailyComparison {
    /// The lines in which a comparison is reported, with what is unavailable and what was left
    /// out disclosed. `numbers` says how the known values are printed; how many digits that
    /// takes never decides an evaluation.
    pub fn display_lines(&self, numbers: &Vec<NumberTexts>) -> (r: Vec<String>)
        requires
            complete(*self),
            numbers@.len() == METRICS,
        ensures
            texts(r@) == report_lines(*self, numbers@),
    {
        let metrics = DailyMetric::all();
        let mut lines: Vec<String> = Vec::new();
        lines.push("Daily metric comparison (descriptive counts only):".to_owned());
        let ghost l0 = seq!["Daily metric comparison (descriptive counts only):"@];
        assert(texts(lines@) =~= l0);
        let mut i: usize = 0;
        assert(l0 + metric_lines(self.measurements@, numbers@, 0) =~= l0);
        while i < METRICS
            invariant
                metrics@ == all_metrics(),
                complete(*self),
                numbers@.len() == METRICS,
                i <= METRICS,
                texts(lines@) == l0 + metric_lines(self.measurements@, numbers@, i as nat),
            decreases METRICS - i,
        {
            let measurement = &self.measurements[i];
            let ghost before = metric_lines(self.measurements@, numbers@, i as nat);
            let line = print_measurement(metrics[i], measurement, &numbers[i]);
            let ghost head = before.push(line@);
            push_text(&mut lines, line);
            let ghost reasons = texts(measurement.unavailable_reasons@);
            let mut j: usize = 0;
            assert(head + reason_lines(reasons, 0) =~= head);
            assert(l0 + (head + reason_lines(reasons, 0)) =~= texts(lines@));
            while j < measurement.unavailable_reasons.len()
                invariant
                    reasons == texts(measurement.unavailable_reasons@),
                    j <= measurement.unavailable_reasons@.len(),
                    texts(lines@) == l0 + (head + reason_lines(reasons, j as nat)),
                decreases measurement.unavailable_reasons.len() - j,
            {
                let mut line = "    Unavailable: ".to_owned();
                line.append(measurement.unavailable_reasons[j].as_str());
                let ghost shown = line@;
                assert(reasons[j as int] == measurement.unavailable_reasons@[j as int]@);
                push_text(&mut lines, line);
                assert((l0 + (head + reason_lines(reasons, j as nat))).push(shown) =~= l0 + (head
                    + reason_lines(reasons, (j + 1) as nat)));
                j = j + 1;
            }
            i = i + 1;
        }
        let ghost l1 = texts(lines@);
        push_text(&mut lines, print_coverage("Baseline", &self.baseline_coverage));
        push_text(&mut lines, print_coverage("Current", &self.current_coverage));
        let ghost l2 = texts(lines@);
        let mut k: usize = 0;
        assert(l2 + point_lines(self.comparison_points.points@, self.evaluations@, 0) =~= l2);
        while k < METRICS
            invariant
                metrics@ == all_metrics(),
                complete(*self),
                k <= METRICS,
                texts(lines@) == l2 + point_lines(
                    self.comparison_points.points@,
                    self.evaluations@,
                    k as nat,
                ),
            decreases METRICS - k,
        {
            if let Some(point) = &self.comparison_points.points[k] {
                if let Some(evaluation) = &self.evaluations[k] {
                    let line = print_point(metrics[k], point, evaluation);
                    let ghost shown = line@;
                    push_text(&mut lines, line);
                    assert((l2 + point_lines(
                        self.comparison_points.points@,
                        self.evaluations@,
                        k as nat,
                    )).push(shown) =~= l2 + point_lines(
                        self.comparison_points.points@,
                        self.evaluations@,
                        k as nat,
                    ).push(shown));
                }
            }
            k = k + 1;
        }
        let mut counts = "  Comparison points crossed: ".to_owned();
        push_decimal(&mut counts, self.crossed_point_count as u64);
        counts.append(" (configured: ");
        push_decimal(&mut counts, self.configured_points as u64);
        counts.append("; evaluated: ");
        push_decimal(&mut counts, self.evaluated_points as u64);
        counts.append("; unavailable: ");
        push_decimal(&mut counts, self.unavailable_points as u64);
        counts.append(")");
        push_text(&mut lines, counts);
        push_text(&mut lines, print_crossed(&self.crossed_points));
        push_text(&mut lines, self.measurement_note.clone());
        push_text(&mut lines, self.safety_note.clone());
        lines
    }
}

fn print_crossed(crossed: &Vec<DailyMetric>) -> (r: String)
    ensures
        r@ == crossed_line(crossed@),
{
    let mut r = "  Crossed comparison points: ".to_owned();
    if crossed.len() == 0 {
        r.append("none");
    } else {
        let mut names: Vec<String> = Vec::new();
        let mut i: usize = 0;
        while i < crossed.len()
            invariant
                i <= crossed@.len(),
                texts(names@) == metric_names(crossed@).take(i as int),
            decreases crossed.len() - i,
        {
            push_text(&mut names, crossed[i].label().to_owned());
            assert(metric_names(crossed@).take(i + 1) =~= metric_names(crossed@).take(
                i as int,
            ).push(metric_names(crossed@)[i as int]));
            i = i + 1;
        }
        assert(metric_names(crossed@).take(i as int) =~= metric_names(crossed@));
        r.append(join(&names, ", ").as_str());
    }
    r
}

} // verus!
