use shenron::concentration::RequestConcentration;
use shenron::daily::{
    compare_daily_metrics, measure_daily_metrics, ComparisonBasis, ComparisonPoint,
    ComparisonRelation, DailyComparison, DailyComparisonPoints, DailyError, DailyMeasurementCoverage,
    DailyMetric, DailyMetricDelta, NumberTexts, PointValue, COMPARISON_POINT_NOTE,
};
use shenron::numbers::Ratio;
use shenron::status::{response_outcome_summary, ResponseOutcomeSummary, StatusClassCounts};
use shenron::volume_report::{PathConcentrationSummary, RequestConcentrationSummary};

fn summary(
    total: u64,
    sources: usize,
    top_requests: u64,
    top_sources: usize,
) -> RequestConcentrationSummary {
    let mut summary = RequestConcentration::with_capabilities(true, true).summary();
    summary.total_requests = total;
    summary.distinct_source_ips = sources;
    summary.top_path = Some(PathConcentrationSummary {
        requests: top_requests,
        request_share: Ratio { numerator: top_requests, denominator: total },
        distinct_source_ips: top_sources,
        requests_per_source_ip: Ratio { numerator: 0, denominator: 1 },
        response_status_classes: StatusClassCounts::default(),
        response_status_codes: None,
        response_bytes: None,
        requests_with_query: 0,
        distinct_query_strings: 0,
        query_strings_beyond_tracking_cap: 0,
        distinct_query_keys: 0,
        query_keys_beyond_tracking_cap: 0,
    });
    summary.response_outcomes = None;
    summary
}

fn outcomes(
    success: u64,
    closed: u64,
    server_error: u64,
    unavailable: u64,
) -> ResponseOutcomeSummary {
    let mut counts = StatusClassCounts::default();
    counts.success = success;
    counts.client_error = closed;
    counts.client_closed_request_499 = closed;
    counts.server_error = server_error;
    counts.unavailable = unavailable;
    response_outcome_summary(&counts)
}

fn float(value: Ratio) -> f64 {
    if value.denominator == 0 {
        0.0
    } else {
        value.numerator as f64 / value.denominator as f64
    }
}

fn delta(m: &DailyMetricDelta) -> Option<f64> {
    if m.has_delta() {
        Some(float(m.current.unwrap()) - float(m.baseline.unwrap()))
    } else {
        None
    }
}

fn ratio(m: &DailyMetricDelta) -> Option<f64> {
    if m.has_ratio() {
        Some(float(m.current.unwrap()) / float(m.baseline.unwrap()))
    } else {
        None
    }
}

fn number(value: &PointValue) -> f64 {
    value.text.parse().unwrap()
}

fn value_of(value: f64) -> PointValue {
    PointValue {
        finite: value.is_finite(),
        below_zero: value < 0.0,
        text: format!("{value}"),
    }
}

fn compare(
    baseline: Option<&RequestConcentrationSummary>,
    current: Option<&RequestConcentrationSummary>,
    points: DailyComparisonPoints,
) -> Result<DailyComparison, DailyError> {
    points.validate()?;
    let measured = measure_daily_metrics(baseline, current)?;
    let holds: Vec<bool> = DailyMetric::all()
        .iter()
        .map(|metric| match &points.points[metric.rank()] {
            Some(point) => {
                let m = &measured[metric.rank()];
                let value = match point.basis {
                    ComparisonBasis::Delta => delta(m),
                    ComparisonBasis::Ratio => ratio(m),
                };
                value.is_some_and(|value| match point.relation {
                    ComparisonRelation::AtLeast => value >= number(&point.value),
                    ComparisonRelation::AtMost => value <= number(&point.value),
                })
            }
            None => false,
        })
        .collect();
    compare_daily_metrics(baseline, current, points, &holds)
}

fn at(result: &DailyComparison, metric: DailyMetric) -> &DailyMetricDelta {
    &result.measurements[metric.rank()]
}

fn texts(result: &DailyComparison) -> Vec<NumberTexts> {
    let text = |value: Option<f64>| value.map(|n| format!("{n:.6}")).unwrap_or_default();
    DailyMetric::all()
        .iter()
        .map(|metric| {
            let m = at(result, *metric);
            let scale = if metric.is_share() { 100.0 } else { 1.0 };
            NumberTexts {
                baseline: text(m.baseline.map(|v| float(v) * scale)),
                current: text(m.current.map(|v| float(v) * scale)),
                delta: text(delta(m).map(|v| v * scale)),
                ratio: text(ratio(m)),
            }
        })
        .collect()
}

fn close(actual: Option<f64>, expected: f64) {
    assert!(
        (actual.unwrap() - expected).abs() < 1e-10,
        "{actual:?} != {expected}"
    );
}

#[test]
fn daily_deltas_preserve_independent_denominators_and_all_measurements() {
    let mut b = summary(1_000_000, 10_000, 200, 100);
    let mut c = summary(2_000_000, 2_000, 400, 200);
    b.response_outcomes = Some(outcomes(900_000, 10_000, 90_000, 0));
    c.response_outcomes = Some(outcomes(1_000_000, 600_000, 200_000, 200_000));
    let result = compare(Some(&b), Some(&c), DailyComparisonPoints::default()).unwrap();
    let counts = at(&result, DailyMetric::TotalRequests).counts.unwrap();
    assert_eq!(
        (counts.baseline, counts.current, counts.delta),
        (1_000_000, 2_000_000, 1_000_000)
    );
    assert_eq!(
        at(&result, DailyMetric::DistinctSourceIps)
            .counts
            .unwrap()
            .delta,
        -8_000
    );
    close(ratio(at(&result, DailyMetric::TotalRequests)), 2.0);
    close(ratio(at(&result, DailyMetric::DistinctSourceIps)), 0.2);
    close(delta(at(&result, DailyMetric::TopPathShare)), 0.0);
    let per_source = at(&result, DailyMetric::TopPathRequestsPerSourceIp);
    close(per_source.current.map(float), 2.0);
    close(ratio(per_source), 1.0);
    let corpus = at(&result, DailyMetric::CorpusRequestsPerSourceIp);
    close(corpus.baseline.map(float), 100.0);
    close(corpus.current.map(float), 1_000.0);
    close(delta(corpus), 900.0);
    close(ratio(corpus), 10.0);
    close(delta(at(&result, DailyMetric::SuccessShare)), -0.4);
    close(
        delta(at(&result, DailyMetric::ClientClosedRequest499Share)),
        0.29,
    );
    close(delta(at(&result, DailyMetric::ServerErrorShare)), 0.01);
    assert_eq!(
        result.current_coverage.unwrap().response_status_unavailable,
        Some(200_000)
    );
    assert_eq!(
        result.crossed_points,
        [
            DailyMetric::SuccessShare,
            DailyMetric::ClientClosedRequest499Share
        ]
    );
    assert_eq!(result.crossed_point_count, 2);
}

fn point(basis: ComparisonBasis, relation: ComparisonRelation, value: f64) -> ComparisonPoint {
    ComparisonPoint { basis, relation, value: value_of(value) }
}

#[test]
fn decreasing_counts_and_reverse_ratios_do_not_need_direction_flags() {
    let b = summary(1_245, 10, 100, 10);
    let c = summary(7, 6, 2, 2);
    let mut points = DailyComparisonPoints::none();
    points.set(
        DailyMetric::TotalRequests,
        point(ComparisonBasis::Ratio, ComparisonRelation::AtMost, 0.01),
    );
    points.set(
        DailyMetric::DistinctSourceIps,
        point(ComparisonBasis::Ratio, ComparisonRelation::AtMost, 0.7),
    );
    let result = compare(Some(&b), Some(&c), points.clone()).unwrap();
    close(ratio(at(&result, DailyMetric::TotalRequests)), 7.0 / 1245.0);
    close(ratio(at(&result, DailyMetric::DistinctSourceIps)), 0.6);
    assert_eq!(
        at(&result, DailyMetric::TotalRequests).counts.unwrap().delta,
        -1238
    );
    assert_eq!(result.crossed_point_count, 2);
    let reverse = compare(Some(&c), Some(&b), points).unwrap();
    close(ratio(at(&reverse, DailyMetric::TotalRequests)), 1245.0 / 7.0);
    close(
        ratio(at(&reverse, DailyMetric::DistinctSourceIps)),
        10.0 / 6.0,
    );
    assert_eq!(reverse.crossed_point_count, 0);
}

#[test]
fn points_use_inclusive_boundaries_and_are_recorded_in_stable_order() {
    let mut b = summary(100, 10, 10, 10);
    let mut c = summary(100, 10, 50, 5);
    b.response_outcomes = Some(outcomes(100, 0, 0, 0));
    c.response_outcomes = Some(outcomes(50, 25, 25, 0));
    let result = compare(Some(&b), Some(&c), DailyComparisonPoints::default()).unwrap();
    assert_eq!(
        result.crossed_points,
        [
            DailyMetric::TopPathShare,
            DailyMetric::TopPathRequestsPerSourceIp,
            DailyMetric::SuccessShare,
            DailyMetric::ClientClosedRequest499Share
        ]
    );
    assert_eq!(result.configured_points, 4);
    assert_eq!(result.evaluated_points, 4);
    assert_eq!(result.unavailable_points, 0);
    let recorded = result.comparison_points.points
        [DailyMetric::TopPathRequestsPerSourceIp.rank()]
    .as_ref()
    .unwrap();
    close(Some(number(&recorded.value)), 10.0);
    assert_eq!(
        format!("{result:?}"),
        format!(
            "{:?}",
            compare(Some(&b), Some(&c), DailyComparisonPoints::default()).unwrap()
        )
    );
    for metric in DailyMetric::all() {
        let mut points = DailyComparisonPoints::none();
        points.set(
            metric,
            point(ComparisonBasis::Delta, ComparisonRelation::AtLeast, 0.0),
        );
        let same = compare(Some(&b), Some(&b), points).unwrap();
        assert_eq!(
            same.evaluations[metric.rank()].as_ref().unwrap().crossed,
            Some(true)
        );
    }
}

#[test]
fn missing_status_and_zero_denominators_are_unavailable_not_zero() {
    let b = summary(10, 2, 5, 1);
    let mut c = b.clone();
    for outcome in [None, Some(outcomes(0, 0, 0, 10))] {
        c.response_outcomes = outcome;
        let result = compare(Some(&c), Some(&c), DailyComparisonPoints::default()).unwrap();
        for metric in [
            DailyMetric::SuccessShare,
            DailyMetric::ClientClosedRequest499Share,
            DailyMetric::ServerErrorShare,
        ] {
            assert!(at(&result, metric).baseline.is_none());
            assert!(at(&result, metric).current.is_none());
            assert!(delta(at(&result, metric)).is_none());
            assert!(!at(&result, metric).unavailable_reasons.is_empty());
        }
        assert_eq!(result.unavailable_points, 2);
        assert_eq!(
            result.evaluations[DailyMetric::SuccessShare.rank()]
                .as_ref()
                .unwrap()
                .crossed,
            None
        );
        assert!(result.display_lines(&texts(&result)).join("\n").contains(
            "2xx share baseline / current / delta: unavailable / unavailable / unavailable"
        ));
    }
    let empty = summary(0, 0, 0, 0);
    let result = compare(Some(&empty), Some(&b), DailyComparisonPoints::default()).unwrap();
    assert!(ratio(at(&result, DailyMetric::TotalRequests)).is_none());
    assert_eq!(
        at(&result, DailyMetric::TotalRequests).counts.unwrap().delta,
        10
    );
    assert!(delta(at(&result, DailyMetric::CorpusRequestsPerSourceIp)).is_none());
    let missing = compare(None, Some(&b), DailyComparisonPoints::default()).unwrap();
    assert_eq!(missing.unavailable_points, 4);
    assert!(at(&missing, DailyMetric::TotalRequests).counts.is_none());
    close(
        at(&missing, DailyMetric::TotalRequests).current.map(float),
        10.0,
    );
}

#[test]
fn configuration_rejects_mistakes_and_caps_are_disclosed_as_counts() {
    for value in [-1.0, f64::NAN, f64::INFINITY] {
        let mut points = DailyComparisonPoints::none();
        points.set(
            DailyMetric::TotalRequests,
            point(ComparisonBasis::Ratio, ComparisonRelation::AtLeast, value),
        );
        assert!(points.validate().is_err());
    }
    let mut b = summary(10, 1, 5, 1);
    b.paths_beyond_tracking_cap = 3;
    b.source_ips_beyond_tracking_cap = 4;
    b.source_path_pairs_beyond_tracking_cap = 5;
    b.requests_without_source_ip = 6;
    let result = compare(Some(&b), Some(&b), DailyComparisonPoints::default()).unwrap();
    let text = result.display_lines(&texts(&result)).join("\n");
    assert!(text.contains("cap omissions paths/sources/pairs 3 / 4 / 5"));
    assert!(text.contains("missing path/source 0 / 6"));
    assert!(text.contains(COMPARISON_POINT_NOTE));
}

#[test]
fn an_out_of_range_change_is_refused() {
    let low = summary(0, 1, 1, 1);
    let high = summary(u64::MAX, 1, 1, 1);
    let error = compare(Some(&low), Some(&high), DailyComparisonPoints::none()).unwrap_err();
    assert_eq!(error, DailyError::CountDelta);
    assert_eq!(error.message(), "daily count delta exceeds signed 64-bit range");
    assert_eq!(
        DailyError::UnusablePoint.message(),
        "comparison points must be finite; ratio comparison points must be nonnegative"
    );
}

#[test]
fn lines_show_counts_exactly_and_points_as_written() {
    let mut b = summary(10, 2, 5, 1);
    let mut c = summary(4, 2, 4, 2);
    b.response_outcomes = Some(outcomes(10, 0, 0, 0));
    c.response_outcomes = Some(outcomes(1, 3, 0, 0));
    let result = compare(Some(&b), Some(&c), DailyComparisonPoints::default()).unwrap();
    let lines = result.display_lines(&texts(&result));
    assert_eq!(lines[0], "Daily metric comparison (descriptive counts only):");
    assert_eq!(
        lines[1],
        "  Total requests baseline / current / delta: 10 / 4 / -6; current/baseline ratio: 0.400000"
    );
    assert_eq!(
        lines[3],
        "  Top path share baseline / current / delta: 50.000000 / 100.000000 / 50.000000 (shares %, delta percentage points); current/baseline ratio: 2.000000"
    );
    assert!(lines.contains(&"  Comparison point 2xx share: Delta AtMost -0.25; crossed: true".to_owned()));
    assert!(lines.contains(
        &"  Comparison points crossed: 3 (configured: 4; evaluated: 4; unavailable: 0)".to_owned()
    ));
    assert!(lines.contains(
        &"  Crossed comparison points: Top path share, 2xx share, 499 share".to_owned()
    ));
    let coverage = DailyMeasurementCoverage::of(&c);
    assert_eq!(coverage.top_path_requests, Some(4));
    assert_eq!(coverage.response_observations, Some(4));
}
