use shenron::conditions::{
    compare_conditions, read_conditions, read_run_conditions, run_status_numbers, status_numbers,
    FactValue, RecordedFact, RunConditions, FACTS, NOTE,
};
use shenron::json::Json;

fn written(conditions: &RunConditions, fact: RecordedFact) -> Option<String> {
    match conditions.get(fact) {
        Some(FactValue::Written(text)) => Some(text.clone()),
        _ => None,
    }
}

fn whole(conditions: &RunConditions, fact: RecordedFact) -> Option<i128> {
    match conditions.get(fact) {
        Some(FactValue::Whole(n)) => Some(*n),
        _ => None,
    }
}

#[test]
fn minute_cap_omissions_comes_only_from_the_sixty_second_rate_window() {
    let report = r#"{"request_concentration": {
        "requests_per_minute": {"observations_beyond_bucket_cap": 999},
        "request_rates": [
            {"bucket_width_seconds": 600, "observations_beyond_bucket_cap": 44},
            {"bucket_width_seconds": 60, "observations_beyond_bucket_cap": 7}
        ]
    }}"#;
    let conditions = read_run_conditions(None, Some(report), false).unwrap();
    assert_eq!(
        written(&conditions, RecordedFact::MinuteCapOmissions).as_deref(),
        Some("7")
    );
    assert_eq!(conditions.facts.len(), FACTS);

    let shorter = r#"{"request_concentration": {
        "request_rates": [
            {"bucket_width_seconds": 600, "observations_beyond_bucket_cap": 44}
        ]
    }}"#;
    let conditions = read_run_conditions(None, Some(shorter), false).unwrap();
    assert_eq!(written(&conditions, RecordedFact::MinuteCapOmissions), None);
}

fn numbers_differ(a: &RunConditions, b: &RunConditions) -> Vec<bool> {
    let number = |value: &Option<FactValue>| match value {
        Some(FactValue::Written(text)) => text.parse::<f64>().ok(),
        Some(FactValue::Whole(n)) => Some(*n as f64),
        _ => None,
    };
    RecordedFact::all()
        .iter()
        .map(|fact| match (number(a.get(*fact)), number(b.get(*fact))) {
            (Some(x), Some(y)) => x != y,
            _ => false,
        })
        .collect()
}

#[test]
fn differences_and_missing_facts_are_disclosed_without_private_values() {
    let manifest = |cap: u64| {
        format!(
            r#"{{"tracking_limits":{{"max_paths":{cap}}},"corpus_label":"private-site","hunt_parameters":{{"trusted_proxy_networks":["198.51.100.1"]}}}}"#
        )
    };
    let a = read_run_conditions(Some(&manifest(5)), None, false).unwrap();
    let b = read_run_conditions(Some(&manifest(9)), None, false).unwrap();
    let differ = numbers_differ(&a, &b);
    let result = compare_conditions(a.clone(), b, &differ);
    assert!(result.changed_recorded_facts.contains(&"max_paths".into()));
    assert!(result
        .unavailable_facts
        .contains(&"recorded_status_share".into()));
    assert_eq!(
        written(&result.baseline, RecordedFact::MaxPaths).as_deref(),
        Some("5")
    );
    let text = format!("{result:?}");
    assert!(!text.contains("private-site") && !text.contains("198.51.100.1"));
    let same = numbers_differ(&a, &a);
    assert!(compare_conditions(a.clone(), a, &same)
        .changed_recorded_facts
        .is_empty());
    assert_eq!(result.note, NOTE);
}

#[test]
fn facts_are_listed_in_the_order_of_their_names() {
    let labels: Vec<&str> = RecordedFact::all().iter().map(|f| f.label()).collect();
    let mut sorted = labels.clone();
    sorted.sort();
    assert_eq!(labels, sorted);
    assert_eq!(labels.len(), FACTS);
    for (place, fact) in RecordedFact::all().iter().enumerate() {
        assert_eq!(fact.rank(), place);
    }
}

#[test]
fn a_setting_is_kept_as_the_digest_of_its_compact_text() {
    let manifest = Json::parse(r#"{"corpus_label": "abc", "nuclei_revision": null}"#).unwrap();
    let conditions = read_conditions(&manifest, &Json::Null, false);
    match conditions.get(RecordedFact::CorpusScopeAnnotation) {
        Some(FactValue::Signature(text)) => assert_eq!(
            text,
            "6cc43f858fbb763301637b5af970e2a46b46f461f27e5a0f41e009c59b827b25"
        ),
        other => panic!("{other:?}"),
    }
    assert!(conditions.get(RecordedFact::NucleiRevision).is_none());
    assert!(RecordedFact::CorpusScopeAnnotation.is_signature());
    assert!(!RecordedFact::MaxPaths.is_signature());
}

#[test]
fn windows_are_measured_in_utc() {
    let manifest = r#"{"hunt_parameters":{"filter_from":"2026-08-24T01:30:00+01:00","filter_to":null}}"#;
    let report = r#"{"metrics":{"filter_to":"2026-08-25T00:30:01.5Z",
        "earliest_timestamp":"2026-08-24T00:00:00.9Z","latest_timestamp":"2026-08-24T00:00:03.1Z"}}"#;
    let conditions = read_run_conditions(Some(manifest), Some(report), false).unwrap();
    assert_eq!(whole(&conditions, RecordedFact::WindowSeconds), Some(86_401));
    assert_eq!(whole(&conditions, RecordedFact::WindowStartWeekdayUtc), Some(0));
    assert_eq!(
        whole(&conditions, RecordedFact::WindowStartSecondOfDayUtc),
        Some(1_800)
    );
    assert_eq!(
        whole(&conditions, RecordedFact::ObservedSpanSeconds),
        Some(2)
    );
    let reversed = r#"{"hunt_parameters":{"filter_from":"2026-08-24T00:00:01.5Z","filter_to":"2026-08-24T00:00:00Z"}}"#;
    let conditions = read_run_conditions(Some(reversed), None, false).unwrap();
    assert_eq!(whole(&conditions, RecordedFact::WindowSeconds), Some(-1));
    assert!(read_run_conditions(Some("{"), None, false).is_none());
}

#[test]
fn the_share_of_recorded_statuses_needs_every_class() {
    let summary = Json::parse(
        r#"{"response_outcomes":{"counts":{"informational":0,"success":5,"redirection":0,"client_error":1,
        "server_error":0,"other":0,"unavailable":4}}}"#,
    )
    .unwrap();
    assert_eq!(
        status_numbers(&summary).unwrap(),
        ["0", "5", "0", "1", "0", "0", "4"]
    );
    let partial = Json::parse(r#"{"response_outcomes":{"counts":{"success":5}}}"#).unwrap();
    assert!(status_numbers(&partial).is_none());
    let report = Json::parse(
        r#"{"request_concentration":{"response_outcomes":{"counts":{"informational":0,"success":5,
        "redirection":0,"client_error":1,"server_error":0,"other":0,"unavailable":4}}}}"#,
    )
    .unwrap();
    let known = read_conditions(&Json::Null, &report, true);
    assert!(matches!(
        known.get(RecordedFact::RecordedStatusShare),
        Some(FactValue::Share(numbers)) if numbers.len() == 7
    ));
    let unknown = read_conditions(&Json::Null, &report, false);
    assert!(unknown.get(RecordedFact::RecordedStatusShare).is_none());
}

#[test]
fn the_counts_of_status_classes_are_found_in_a_report() {
    let counts = r#""response_outcomes":{"counts":{"informational":1,"success":2,"redirection":3,"client_error":4,"server_error":5,"other":6,"unavailable":7.5}}"#;
    let nested = format!("{{\"metrics\":{{\"request_concentration\":{{{counts}}}}}}}");
    let flat = format!("{{\"request_concentration\":{{{counts}}}}}");
    for report in [nested, flat] {
        assert_eq!(
            run_status_numbers(Some(&report)).unwrap(),
            ["1", "2", "3", "4", "5", "6", "7.5"]
        );
    }
    assert!(run_status_numbers(None).is_none());
    assert!(run_status_numbers(Some("{")).is_none());
}

#[test]
fn whole_numbers_decide_for_themselves() {
    let manifest = |cap: &str| format!("{{\"tracking_limits\":{{\"max_paths\":{cap}}}}}");
    let read = |cap: &str| read_run_conditions(Some(&manifest(cap)), None, false).unwrap();
    let changed = |a: &str, b: &str, flag: bool| {
        !compare_conditions(read(a), read(b), &vec![flag; FACTS])
            .changed_recorded_facts
            .is_empty()
    };
    assert!(!changed("5", "5", true));
    assert!(changed("5", "9", false));
    assert!(!changed("5.5", "5.5", true));
    assert!(changed("5.5", "5.25", true));
    assert!(!changed("5.5", "5.25", false));
    let counts = r#"{"request_concentration":{"response_outcomes":{"counts":{"informational":1,"success":2,"redirection":3,"client_error":4,"server_error":5,"other":6,"unavailable":7}}}}"#;
    let shares = || read_run_conditions(None, Some(counts), true).unwrap();
    assert!(matches!(
        shares().get(RecordedFact::RecordedStatusShare),
        Some(FactValue::Share(_))
    ));
    assert!(compare_conditions(shares(), shares(), &vec![true; FACTS])
        .changed_recorded_facts
        .is_empty());
}
