use shenron::concentration::RequestConcentration;
use shenron::conditions::read_conditions;
use shenron::daily::DailyMetric;
use shenron::json::Json;
use shenron::numbers::Ratio;
use shenron::references::{
    compare_reference_runs, distribution, reference_distribution, reference_set,
    MetricDistribution, ReferenceError, ReferencePath, ReferenceProvenance, NOTE,
};

fn whole(n: u64) -> Ratio {
    Ratio { numerator: n, denominator: 1 }
}

fn float(value: Ratio) -> f64 {
    if value.denominator == 0 {
        0.0
    } else {
        value.numerator as f64 / value.denominator as f64
    }
}

fn median(d: &MetricDistribution) -> Option<f64> {
    d.median.map(|m| float(m.lower) / 2.0 + float(m.upper) / 2.0)
}

fn ratio_to_median(d: &MetricDistribution) -> Option<f64> {
    if d.has_ratio() {
        Some(float(d.current.unwrap()) / median(d).unwrap())
    } else {
        None
    }
}

#[test]
fn median_has_explicit_even_empty_and_zero_semantics() {
    let missing = || vec!["missing".to_owned()];
    let result = distribution(
        &vec![whole(8), whole(2), whole(4), whole(6)],
        &missing(),
        Ok(whole(10)),
    );
    assert_eq!(median(&result), Some(5.0));
    assert_eq!(ratio_to_median(&result), Some(2.0));
    assert_eq!(result.unavailable_runs, 1);
    let zero = distribution(&vec![whole(0)], &Vec::new(), Ok(whole(3)));
    assert_eq!(ratio_to_median(&zero), None);
    let twice = vec!["missing".to_owned(), "missing".to_owned()];
    let nothing = distribution(&Vec::new(), &twice, Err("missing"));
    assert_eq!(median(&nothing), None);
    assert_eq!(nothing.current, None);
    assert_eq!(nothing.unavailable_reasons.get("missing"), Some(&2));
    assert!(!nothing.has_delta());
}

#[test]
fn fractions_are_ordered_by_value() {
    let third = Ratio { numerator: 1, denominator: 3 };
    let half = Ratio { numerator: 2, denominator: 4 };
    let nothing = Ratio { numerator: 7, denominator: 0 };
    let result = distribution(&vec![half, nothing, third], &Vec::new(), Err("none"));
    assert_eq!(result.minimum, Some(nothing));
    assert_eq!(result.median.map(|m| (m.lower, m.upper)), Some((third, third)));
    assert_eq!(result.maximum, Some(half));
    assert_eq!(result.current_unavailable_reason.as_deref(), Some("none"));
}

fn directory(path: &str) -> ReferencePath {
    ReferencePath { path: path.to_owned(), is_directory: true }
}

fn provenance() -> ReferenceProvenance {
    let manifest = Json::parse(
        r#"{"corpus":[{"path":"/nonexistent/private/log"}],"corpus_label":"private-label"}"#,
    )
    .unwrap();
    ReferenceProvenance {
        artifacts_sha256: Vec::new(),
        conditions: read_conditions(&manifest, &Json::Null, false),
    }
}

fn report(requested: Vec<ReferencePath>) -> String {
    let set = reference_set(&directory("/t/current"), &requested).unwrap();
    let runs = set.references.iter().map(|_| provenance()).collect();
    let summaries = set.references.iter().map(|_| None).collect();
    let result = reference_distribution(&set, runs, provenance(), &summaries, None);
    assert_eq!(result.duplicate_directory_references_excluded, 1);
    assert_eq!(
        result.metrics[DailyMetric::TotalRequests.rank()].unavailable_runs,
        2
    );
    assert_eq!(result.note, NOTE);
    format!("{result:?} {:?}", set.references)
}

#[test]
fn explicit_run_set_is_order_independent_deduplicated_and_never_reads_logs() {
    let result = report(vec![directory("/t/a"), directory("/t/b"), directory("/t/a")]);
    let reverse = report(vec![directory("/t/b"), directory("/t/a"), directory("/t/b")]);
    assert_eq!(result, reverse);
    assert!(!result.contains("private-label") && !result.contains("/nonexistent"));
}

#[test]
fn references_come_in_the_order_of_their_path_components() {
    let set = reference_set(
        &directory("/c"),
        &vec![directory("/a.b/x"), directory("/a/x"), directory("/a/b")],
    )
    .unwrap();
    assert_eq!(set.references, ["/a/b", "/a/x", "/a.b/x"]);
    assert_eq!(set.requested_reference_runs, 3);
}

#[test]
fn each_refusal_of_a_reference_has_its_reason() {
    let file = ReferencePath { path: "/f".to_owned(), is_directory: false };
    let refused = |current: &ReferencePath, requested: Vec<ReferencePath>| {
        reference_set(current, &requested).unwrap_err()
    };
    assert_eq!(refused(&file, Vec::new()), ReferenceError::CurrentNotADirectory);
    let current = directory("/c");
    assert_eq!(
        refused(&current, vec![directory("/a"), file]),
        ReferenceError::ReferenceNotADirectory
    );
    let included = refused(&current, vec![directory("/c")]);
    assert_eq!(included, ReferenceError::CurrentIncluded);
    assert_eq!(
        included.message(),
        "the current run cannot be included in its reference set"
    );
}

#[test]
fn each_metric_is_measured_in_each_run() {
    let run = |total: u64| {
        let mut summary = RequestConcentration::with_capabilities(true, true).summary();
        summary.total_requests = total;
        summary
    };
    let runs = vec![Some(run(4)), None, Some(run(2))];
    let result = compare_reference_runs(&runs, Some(&run(9)));
    let total = &result[DailyMetric::TotalRequests.rank()];
    assert_eq!(total.available_runs, 2);
    assert_eq!(total.unavailable_runs, 1);
    assert_eq!(
        total.unavailable_reasons.get("concentration summary unavailable"),
        Some(&1)
    );
    assert_eq!(median(total), Some(3.0));
    assert_eq!(ratio_to_median(total), Some(3.0));
}
