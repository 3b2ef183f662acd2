use shenron::consistency::{
    compare_boolean_fact, compare_declared_with_observed, declared_browser_family, unavailable,
    ComparisonOutcome, ComparisonResult, ConsistencyAccumulator, PrivateConsistencyReport,
    UnavailableReason, CONSISTENCY_SAFETY_NOTE,
};
use shenron::event::TelemetryProfile;

#[test]
fn distinguishes_each_unavailable_reason_without_counting_a_mismatch() {
    let missing_reference = compare_declared_with_observed(true, Some("fact"), None);
    let missing_capability = compare_declared_with_observed(false, Some("fact"), None);
    let missing_value = compare_declared_with_observed(true, None, Some(&[]));
    assert_eq!(
        missing_reference.unavailable_reason,
        Some(UnavailableReason::ReferenceDataMissing)
    );
    assert_eq!(
        missing_capability.unavailable_reason,
        Some(UnavailableReason::TelemetryDoesNotExpose)
    );
    assert_eq!(
        missing_value.unavailable_reason,
        Some(UnavailableReason::ObservedValueMissing)
    );

    let mut accumulator = ConsistencyAccumulator::default();
    for result in [missing_reference, missing_capability, missing_value] {
        accumulator.record("test", "declared", "value", "observed", None, result);
    }
    let (summary, _) = accumulator.reports();
    assert_eq!(summary.checks[0].mismatches, 0);
    assert_eq!(summary.checks[0].unavailable, 3);
    assert_eq!(
        summary.checks[0].unavailable_reasons.reference_data_missing,
        1
    );
    assert_eq!(
        summary.checks[0]
            .unavailable_reasons
            .telemetry_does_not_expose,
        1
    );
    assert_eq!(
        summary.checks[0].unavailable_reasons.observed_value_missing,
        1
    );
}

#[test]
fn tls_check_is_unavailable_when_the_profile_does_not_expose_tls() {
    let capabilities = TelemetryProfile::AwsWaf.capabilities();
    assert!(!capabilities.tls_cipher);
    let result = compare_declared_with_observed(
        capabilities.tls_cipher,
        Some("TLS_AES_128_GCM_SHA256"),
        Some(&["TLS_AES_128_GCM_SHA256".to_owned()]),
    );
    assert_eq!(result.outcome, ComparisonOutcome::Unavailable);
    assert_eq!(
        result.unavailable_reason,
        Some(UnavailableReason::TelemetryDoesNotExpose)
    );
}

#[test]
fn unavailable_private_report_size_does_not_scale_with_request_count() {
    fn report_for(count: usize) -> PrivateConsistencyReport {
        let mut accumulator = ConsistencyAccumulator::default();
        for _ in 0..count {
            accumulator.record(
                "declared-browser-tls-cipher",
                "user-agent-browser-family",
                "chromium",
                "tls-cipher-suite",
                None,
                unavailable(UnavailableReason::TelemetryDoesNotExpose),
            );
        }
        accumulator.reports().1
    }

    let ten_thousand = report_for(10_000);
    let hundred_thousand = report_for(100_000);
    assert_eq!(ten_thousand.checks.len(), 1);
    assert_eq!(hundred_thousand.checks.len(), 1);
    assert!(ten_thousand.mismatch_observations.is_empty());
    assert!(hundred_thousand.mismatch_observations.is_empty());
    assert_eq!(
        format!("{ten_thousand:#?}").lines().count(),
        format!("{hundred_thousand:#?}").lines().count()
    );
    assert_eq!(
        hundred_thousand.checks[0]
            .unavailable_reasons
            .telemetry_does_not_expose,
        100_000
    );
    assert_eq!(hundred_thousand.checks[0].mismatches, 0);
}

#[test]
fn private_report_retains_only_mismatches_and_discloses_its_cap() {
    let mut accumulator = ConsistencyAccumulator::new(1);
    accumulator.record(
        "check",
        "declared",
        "matching-value",
        "observed",
        Some("matching-value"),
        ComparisonResult {
            outcome: ComparisonOutcome::Match,
            unavailable_reason: None,
        },
    );
    accumulator.record(
        "check",
        "declared",
        "unknown-value",
        "observed",
        None,
        unavailable(UnavailableReason::ObservedValueMissing),
    );
    for declared_value in ["first-mismatch", "second-mismatch"] {
        accumulator.record(
            "check",
            "declared",
            declared_value,
            "observed",
            Some("observed-value"),
            ComparisonResult {
                outcome: ComparisonOutcome::Mismatch,
                unavailable_reason: None,
            },
        );
    }

    let (summary, private) = accumulator.reports();
    assert_eq!(private.checks.len(), 1);
    assert_eq!(private.checks[0].matches, 1);
    assert_eq!(private.checks[0].mismatches, 2);
    assert_eq!(private.checks[0].unavailable, 1);
    assert_eq!(
        private.checks[0].unavailable_reasons.observed_value_missing,
        1
    );
    assert_eq!(private.mismatch_observations.len(), 1);
    assert_eq!(
        private.mismatch_observations[0].declared_value,
        "first-mismatch"
    );
    assert_eq!(
        private.mismatch_observations[0].outcome,
        ComparisonOutcome::Mismatch
    );
    assert_eq!(private.mismatch_observations_beyond_cap, 1);
    assert_eq!(summary.private_observations_beyond_cap, 1);
}

#[test]
fn checks_are_listed_in_the_order_of_their_names() {
    let mut accumulator = ConsistencyAccumulator::default();
    assert!(accumulator.can_record("b", ComparisonOutcome::Mismatch));
    for check in ["b", "a", "c", "a"] {
        let result = compare_boolean_fact(true, true, true, check == "a");
        accumulator.record(check, "d", "v", "o", Some("x"), result);
    }
    let (summary, private) = accumulator.reports();
    let names: Vec<&str> = summary.checks.iter().map(|c| c.check_id.as_str()).collect();
    assert_eq!(names, ["a", "b", "c"]);
    assert_eq!(summary.checks[0].matches, 2);
    assert_eq!(private.report_kind, "DECLARED_OBSERVED_CONSISTENCY_PRIVATE");
    assert_eq!(private.safety_note, CONSISTENCY_SAFETY_NOTE);
}

#[test]
fn an_observed_value_is_compared_with_the_accepted_ones() {
    let accepted = ["a".to_owned(), "b".to_owned()];
    let outcome = |value| compare_declared_with_observed(true, value, Some(&accepted)).outcome;
    assert_eq!(outcome(Some("b")), ComparisonOutcome::Match);
    assert_eq!(outcome(Some("c")), ComparisonOutcome::Mismatch);
    assert_eq!(outcome(Some("")), ComparisonOutcome::Unavailable);
}

#[test]
fn browser_families_are_coarse() {
    assert_eq!(declared_browser_family(Some("Mozilla Firefox/1 Chrome/2")), Some("firefox"));
    assert_eq!(declared_browser_family(Some("Chrome/2 Safari/3")), Some("chromium"));
    assert_eq!(declared_browser_family(Some("Version/1 Safari/3")), Some("safari"));
    assert_eq!(declared_browser_family(Some("curl/8")), None);
    assert_eq!(declared_browser_family(None), None);
}

#[test]
fn mismatches_of_the_checks_are_kept_or_left_out() {
    let mut accumulator = ConsistencyAccumulator::new(2);
    let mismatch = compare_boolean_fact(true, true, true, false);
    let unknown = unavailable(UnavailableReason::ObservedValueMissing);
    for (check, value, result) in [
        ("b", "1", mismatch),
        ("a", "2", mismatch),
        ("b", "3", unknown),
        ("b", "4", mismatch),
    ] {
        accumulator.record(check, "declared", value, "observed", None, result);
    }
    let (summary, private) = accumulator.reports();
    let total: u64 = summary.checks.iter().map(|check| check.mismatches).sum();
    assert_eq!(total, 3);
    assert_eq!(private.mismatch_observations.len(), 2);
    assert_eq!(private.mismatch_observations[0].declared_value, "1");
    assert_eq!(private.mismatch_observations_beyond_cap, 1);
    assert_eq!(summary.private_observations_beyond_cap, 1);
    assert_eq!(summary.checks[0].check_id, "a");
    assert_eq!(summary.checks[1].unavailable, 1);
    assert_eq!(summary.checks[1].unavailable_reasons.observed_value_missing, 1);
}
