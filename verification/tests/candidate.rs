use shenron::access_log::{parse_combined_line, AccessLogFormat};
use shenron::candidate::{
    build_batch_from_findings, build_from_findings, compatibility, read_time, replay, seen_range,
    CandidateReplay, DefensiveCandidate,
};
use shenron::condition::{
    absent_condition_field, Backend, CompatibilityStatus, DefensiveCondition,
};
use shenron::event::{TelemetryProfile, Timestamp, WebEvent};
use shenron::evidence::{evidence_document, evidence_name};
use shenron::export::{
    aws_rule, ensure_new, ossec_pattern, ossec_rule, plan_export, reject_sensitive, safe_name,
    terraform_rule, xml, ExportError, OutputRefusal, Rendered,
};
use shenron::finding::{Detectability, FindingExplanation, FindingSource, RequestSpecificity};
use shenron::numbers::Ratio;

fn finding(cve: &str, path: &str, time: Option<&str>) -> FindingExplanation {
    FindingExplanation {
        template_id: "template".to_owned(),
        cves: vec![cve.to_owned()],
        detectability: Detectability::High,
        request_specificity: RequestSpecificity::RequestSpecific,
        timestamp: time.map(str::to_owned),
        source_ip: None,
        client_ip: None,
        host: None,
        method: Some("GET".to_owned()),
        uri_path: Some(path.to_owned()),
        uri_query: None,
        waf_action: None,
        waf_rule_id: None,
        waf_rule_type: None,
        waf_labels: Vec::new(),
        waf_non_terminating_rule_ids: Vec::new(),
        headers: Vec::new(),
        ja3: None,
        ja4: None,
        request_id: Some(format!("id{path}")),
        log_source: None,
        source: FindingSource::Nuclei,
        rule_title: None,
        sigma_level: None,
    }
}

fn request(target: &str, id: Option<&str>) -> WebEvent {
    let line = format!(
        "198.51.100.1 - - [24/Aug/2026:11:20:30 +0000] \"GET {target} HTTP/1.1\" 200 12 \"-\" \"agent\""
    );
    let mut event = parse_combined_line(&line, AccessLogFormat::ApacheCombined).unwrap();
    event.request_id = id.map(str::to_owned);
    event
}

fn built() -> DefensiveCandidate {
    build_from_findings(
        &vec![finding("CVE-2026-0001", "/a.b", None)],
        "CVE-2026-0001",
        TelemetryProfile::ApacheCombined,
        true,
    )
    .unwrap()
}

fn replayed() -> DefensiveCandidate {
    let mut candidate = built();
    let replay = CandidateReplay::new(&candidate);
    replay.finish(&mut candidate, TelemetryProfile::ApacheCombined);
    candidate
}

fn uri(value: &str) -> DefensiveCondition {
    DefensiveCondition::UriEquals { value: value.to_owned() }
}

#[test]
fn one_candidate_is_built_from_the_findings_of_a_cve() {
    let findings = vec![
        finding("cve-2026-0001", "/a", Some("2026-01-02T00:00:00+01:00")),
        finding("CVE-2026-0002", "/b", Some("2026-01-01T00:00:00Z")),
        finding("CVE-2026-0001", "/a", Some("2026-01-01T12:00:00Z")),
        finding("CVE-2026-0001", "/a", Some("yesterday")),
    ];
    let candidate =
        build_from_findings(&findings, " cve-2026-0001 ", TelemetryProfile::AwsWaf, false).unwrap();
    assert_eq!(candidate.id, "shenron-cve-2026-0001");
    assert_eq!(candidate.cves, ["CVE-2026-0001"]);
    assert_eq!(candidate.source_findings.len(), 3);
    assert_eq!(candidate.evidence.known_threat_findings, 3);
    assert_eq!(candidate.evidence.known_threat_findings_matched, 3);
    assert_eq!(
        candidate.evidence.threat_coverage,
        Some(Ratio { numerator: 1, denominator: 1 })
    );
    // 2026-01-01T12:00:00Z
    assert_eq!(
        candidate.evidence.first_seen,
        Some(Timestamp { seconds: 1_767_268_800, nanos: 0 })
    );
    // 2026-01-01T23:00:00Z
    assert_eq!(
        candidate.evidence.last_seen,
        Some(Timestamp { seconds: 1_767_308_400, nanos: 0 })
    );
    assert!(!candidate.evidence.replay_completed);
    assert!(candidate.conditions.matches(&request("/a?x", None)));
    assert!(!candidate.conditions.matches(&request("/b", None)));
}

#[test]
fn findings_must_share_a_method_and_a_path() {
    let profile = TelemetryProfile::AwsWaf;
    let other = finding("CVE-2026-0001", "/a", None);
    let mut posted = other.clone();
    posted.method = Some("POST".to_owned());
    let elsewhere = finding("CVE-2026-0001", "/b", None);
    let message = |findings: Vec<FindingExplanation>, cve: &str| {
        build_from_findings(&findings, cve, profile, false)
            .unwrap_err()
            .message()
    };
    assert_eq!(
        message(vec![other.clone()], "CVE-2026-0002"),
        "no private findings reference CVE-2026-0002"
    );
    assert_eq!(
        message(vec![other.clone(), posted], "CVE-2026-0001"),
        "candidate build refused: selected findings do not share one method"
    );
    assert_eq!(
        message(vec![other, elsewhere], "CVE-2026-0001"),
        "candidate build refused: selected findings do not share one URI path"
    );
}

#[test]
fn a_batch_has_one_candidate_for_each_pattern() {
    let mut blocked = finding("CVE-2026-0001", "/a", None);
    blocked.waf_action = Some("block".to_owned());
    let mut incomplete = finding("CVE-2026-0001", "/a", None);
    incomplete.method = None;
    let findings = vec![
        finding("CVE-2026-0002", "/a", None),
        finding("CVE-2026-0001", "/b", None),
        blocked,
        incomplete,
        finding("cve-2026-0001 ", "/b", None),
        finding("CVE-2026-0001", "/a", None),
    ];
    let (candidates, stats) = build_batch_from_findings(&findings, TelemetryProfile::AwsWaf);
    let ids: Vec<&str> = candidates.iter().map(|c| c.id.as_str()).collect();
    assert_eq!(
        ids,
        [
            "shenron-cve-2026-0001-001",
            "shenron-cve-2026-0001-002",
            "shenron-cve-2026-0002-003"
        ]
    );
    assert_eq!(candidates[1].evidence.known_threat_findings, 2);
    assert_eq!(candidates[1].evidence.known_threat_findings_missed, 2);
    assert_eq!(candidates[1].evidence.threat_coverage, None);
    assert_eq!(stats.candidates, 3);
    assert_eq!(stats.excluded_blocked_findings, 1);
    assert_eq!(stats.skipped_incomplete_findings, 1);
    let (_, stats) = build_batch_from_findings(&findings, TelemetryProfile::ApacheCombined);
    assert_eq!(stats.excluded_blocked_findings, 0);
}

#[test]
fn a_replay_counts_each_event_once() {
    let mut candidate = built();
    let mut replay = CandidateReplay::new(&candidate);
    let known = "id/a.b";
    for event in [
        request("/a.b", Some(known)),
        request("/a.b", Some(known)),
        request("/a.b", Some("other")),
        request("/a.b", None),
        request("/c", Some(known)),
    ] {
        assert!(replay.evaluated() < u64::MAX);
        replay.observe(&candidate, &event);
    }
    replay.finish(&mut candidate, TelemetryProfile::NginxCombined);
    let evidence = candidate.evidence;
    assert_eq!(evidence.historical_requests_evaluated, 5);
    assert_eq!(evidence.known_threat_findings_matched, 1);
    assert_eq!(evidence.known_threat_findings_missed, 0);
    assert_eq!(evidence.other_historical_matches, 2);
    assert_eq!(
        evidence.threat_coverage,
        Some(Ratio { numerator: 1, denominator: 1 })
    );
    assert!(evidence.replay_completed);
    assert_eq!(candidate.telemetry_profile, TelemetryProfile::NginxCombined);
}

#[test]
fn times_are_read_and_ranged() {
    assert_eq!(read_time(&None), None);
    assert_eq!(read_time(&Some("2026-13-01T00:00:00Z".to_owned())), None);
    let early = read_time(&Some("1970-01-01T00:00:01.5Z".to_owned()));
    assert_eq!(early, Some(Timestamp { seconds: 1, nanos: 500_000_000 }));
    let late = Some(Timestamp { seconds: 2, nanos: 0 });
    assert_eq!(seen_range(&vec![late, None, early]), (early, late));
    assert_eq!(seen_range(&vec![None]), (None, None));
}

#[test]
fn conditions_match_on_fields_and_combine() {
    let event = request("/a/b?q=1&r=2", None);
    let yes = [
        DefensiveCondition::UriContains { value: "/b".into() },
        DefensiveCondition::UriStartsWith { value: "/a".into() },
        DefensiveCondition::QueryEquals { value: "q=1&r=2".into() },
        DefensiveCondition::QueryContains { value: "r=2".into() },
        DefensiveCondition::MethodEquals { value: "GET".into() },
        DefensiveCondition::UserAgentEquals { value: "agent".into() },
        DefensiveCondition::UserAgentContains { value: "gen".into() },
        DefensiveCondition::Not { condition: Box::new(uri("/a")) },
        DefensiveCondition::Or { conditions: vec![uri("/a"), uri("/a/b")] },
    ];
    for condition in &yes {
        assert!(condition.matches(&event), "{condition:?}");
    }
    let no = [
        DefensiveCondition::And { conditions: vec![] },
        DefensiveCondition::Or { conditions: vec![] },
        DefensiveCondition::And { conditions: vec![uri("/a/b"), uri("/a")] },
        DefensiveCondition::HostEquals { value: "h".into() },
        DefensiveCondition::Ja3Equals { value: "j".into() },
        DefensiveCondition::Ja4Equals { value: "j".into() },
    ];
    for condition in &no {
        assert!(!condition.matches(&event), "{condition:?}");
    }
    assert!(absent_condition_field(&no[3], &event));
    assert!(!absent_condition_field(&yes[0], &event));
    let mut values = Vec::new();
    yes[8].values(&mut values);
    assert_eq!(values, ["/a", "/a/b"]);
}

#[test]
fn what_a_backend_cannot_state_is_given_a_reason() {
    let mut candidate = built();
    let full = compatibility(&candidate, Backend::Ossec, TelemetryProfile::ApacheCombined);
    assert_eq!(full.status, CompatibilityStatus::FullySupported);
    assert_eq!(full.backend, Backend::Ossec.name());
    assert!(full.reasons.is_empty());

    candidate.conditions = DefensiveCondition::And {
        conditions: vec![uri("/a"), DefensiveCondition::Ja4Equals { value: "j".into() }],
    };
    let partial = compatibility(
        &candidate,
        Backend::AwsWafJson,
        TelemetryProfile::ApacheCombined,
    );
    assert_eq!(partial.status, CompatibilityStatus::PartiallySupported);
    assert_eq!(
        partial.reasons,
        ["JA4 is unavailable in the selected telemetry profile"]
    );

    candidate.conditions = DefensiveCondition::Not { condition: Box::new(uri("/a")) };
    let none = compatibility(&candidate, Backend::Ossec, TelemetryProfile::ApacheCombined);
    assert_eq!(none.status, CompatibilityStatus::Unsupported);
    assert_eq!(
        none.reasons,
        ["OSSEC raw combined-log exporter cannot faithfully represent NOT"]
    );

    let mut deep = uri("/a");
    for _ in 0..4 {
        deep = DefensiveCondition::Not { condition: Box::new(deep) };
    }
    candidate.conditions = deep;
    let nested = compatibility(
        &candidate,
        Backend::TerraformAwsWaf,
        TelemetryProfile::ApacheCombined,
    );
    assert_eq!(
        nested.reasons,
        ["AWS WAF permits at most three nested logical statement levels"]
    );
}

#[test]
fn rule_names_keep_letters_digits_and_hyphens() {
    assert_eq!(safe_name("--Shenron CVE_1!"), "shenron-cve-1");
    assert_eq!(safe_name(&"a".repeat(200)).len(), 128);
    assert_eq!(xml("<a & \"b\">"), "&lt;a &amp; &quot;b&quot;&gt;");
}

#[test]
fn rules_are_rendered_for_each_backend() {
    let candidate = replayed();
    assert_eq!(
        aws_rule(&candidate, 7).compact(),
        "{\"Name\":\"shenron-cve-2026-0001\",\"Priority\":7,\"Action\":{\"Count\":{}},\"Statement\":{\"AndStatement\":{\"Statements\":[{\"ByteMatchStatement\":{\"SearchString\":\"GET\",\"FieldToMatch\":{\"Method\":{}},\"TextTransformations\":[{\"Priority\":0,\"Type\":\"NONE\"}],\"PositionalConstraint\":\"EXACTLY\"}},{\"ByteMatchStatement\":{\"SearchString\":\"/a.b\",\"FieldToMatch\":{\"UriPath\":{}},\"TextTransformations\":[{\"Priority\":0,\"Type\":\"NONE\"}],\"PositionalConstraint\":\"EXACTLY\"}}]}},\"VisibilityConfig\":{\"SampledRequestsEnabled\":true,\"CloudWatchMetricsEnabled\":true,\"MetricName\":\"shenron-cve-2026-0001\"}}"
    );
    assert_eq!(
        ossec_pattern(&candidate.conditions).unwrap(),
        "^(?=.*\\\"GET )(?=.*\\\"[A-Z]+ /a\\.b(?:\\?[^ ]*)? HTTP/).*$"
    );
    assert_eq!(
        ossec_rule(&candidate, 100_000).unwrap_err().message(),
        "OSSEC rule id must be 100 through 99999"
    );
    assert_eq!(
        ossec_rule(&candidate, 100).unwrap(),
        "<!-- Generated by Shenron. Detection control only: this does not block requests. -->\n<!-- Requires nginx/Apache combined logs decoded as web-log. Test with ossec-logtest. -->\n<group name=\"shenron,web,\">\n  <rule id=\"100\" level=\"10\">\n    <category>web-log</category>\n    <pcre2>^(?=.*\\&quot;GET )(?=.*\\&quot;[A-Z]+ /a\\.b(?:\\?[^ ]*)? HTTP/).*$</pcre2>\n    <description>Shenron candidate shenron-cve-2026-0001 detection</description>\n    <info type=\"cve\">CVE-2026-0001</info>\n  </rule>\n</group>\n"
    );
    let mut negated = replayed();
    negated.conditions = DefensiveCondition::Not { condition: Box::new(uri("/\"q\"")) };
    assert_eq!(
        terraform_rule(&negated, 7, "Some(1.0)"),
        "# Generated by Shenron. Defensive candidate only; review before deployment.\n# CVEs: CVE-2026-0001\n# Recommended initial action: COUNT\n# Threat coverage: Some(1.0); other historical matches: 0\n# Integrate this rule fragment into an existing aws_wafv2_web_acl.\n\nrule {\n  name     = \"shenron-cve-2026-0001\"\n  priority = 7\n\n  action {\n    count {}\n  }\n\n  statement {\n    not_statement {\n      statement {\n        byte_match_statement {\n          search_string         = \"/\\\"q\\\"\"\n          positional_constraint = \"EXACTLY\"\n          field_to_match {\n            uri_path {}\n          }\n          text_transformation {\n            priority = 0\n            type     = \"NONE\"\n          }\n        }\n      }\n    }\n  }\n  visibility_config {\n    cloudwatch_metrics_enabled = true\n    metric_name                = \"shenron-cve-2026-0001\"\n    sampled_requests_enabled   = true\n  }\n}\n"
    );
    assert_eq!(
        ossec_rule(&negated, 100).unwrap_err().message(),
        "OSSEC exporter requires an AND of raw combined-log conditions"
    );
}

#[test]
fn exports_are_refused_with_a_reason() {
    let apache = TelemetryProfile::ApacheCombined;
    let plan = |candidate: &DefensiveCandidate, backend: Backend, priority: Option<u32>| {
        plan_export(candidate, backend, apache, priority, 100, "None")
    };
    let mut sensitive = replayed();
    sensitive.conditions = uri("/API-Key");
    assert!(matches!(
        plan(&sensitive, Backend::Ossec, None),
        Err(ExportError::Sensitive)
    ));
    assert!(reject_sensitive(&sensitive).is_err());
    assert!(reject_sensitive(&built()).is_ok());
    let mut unsupported = replayed();
    unsupported.conditions = DefensiveCondition::Or { conditions: vec![uri("/a")] };
    assert_eq!(
        plan(&unsupported, Backend::Ossec, None).unwrap_err().message(),
        "export refused: Unsupported: OSSEC raw combined-log exporter cannot faithfully represent OR"
    );
    assert_eq!(
        plan(&built(), Backend::AwsWafJson, Some(1)).unwrap_err().message(),
        "preventive export refused: candidate has not been validated against historical traffic"
    );
    assert_eq!(
        plan(&replayed(), Backend::AwsWafJson, None).unwrap_err().message(),
        "preventive export requires --priority; Shenron cannot infer WebACL priority"
    );
    let ossec = plan(&built(), Backend::Ossec, None).unwrap();
    assert!(matches!(ossec.rendered, Rendered::Text(_)));
    assert_eq!(ossec.report.status, CompatibilityStatus::FullySupported);
    let aws = plan(&replayed(), Backend::AwsWafJson, Some(1)).unwrap();
    assert!(matches!(aws.rendered, Rendered::Json(_)));
}

#[test]
fn outputs_never_replace_files_or_enter_frozen_places() {
    let place = |parts: &[&str]| parts.iter().map(|part| (*part).to_owned()).collect();
    assert_eq!(ensure_new(true, &place(&["out"])), Some(OutputRefusal::Exists));
    assert_eq!(
        ensure_new(false, &place(&["x", "research", "out"])),
        Some(OutputRefusal::FrozenPlace)
    );
    assert_eq!(
        ensure_new(false, &place(&["nuclei-templates"])),
        Some(OutputRefusal::FrozenPlace)
    );
    assert_eq!(ensure_new(false, &place(&["researches", "out"])), None);
}

#[test]
fn a_replay_does_not_depend_on_the_order_of_events() {
    let known = "id/a.b";
    let events = vec![
        request("/c", Some(known)),
        request("/a.b", Some("other")),
        request("/a.b", Some(known)),
    ];
    let mut turned = events.clone();
    turned.reverse();
    let first = replay(built(), &events, TelemetryProfile::ApacheCombined);
    let second = replay(built(), &turned, TelemetryProfile::ApacheCombined);
    assert_eq!(first.evidence, second.evidence);
    assert_eq!(first.evidence.historical_requests_evaluated, 3);
    assert_eq!(first.evidence.known_threat_findings_matched, 1);
    assert_eq!(first.evidence.other_historical_matches, 1);
    assert!(first.evidence.replay_completed);
}

#[test]
fn the_first_reason_to_refuse_an_export_is_given() {
    let profile = TelemetryProfile::ApacheCombined;
    let message = |candidate: &DefensiveCandidate, backend: Backend| {
        plan_export(candidate, backend, profile, None, 1, "None")
            .unwrap_err()
            .message()
    };
    let mut candidate = built();
    assert_eq!(
        message(&candidate, Backend::AwsWafJson),
        "preventive export refused: candidate has not been validated against historical traffic"
    );
    assert_eq!(
        message(&candidate, Backend::Ossec),
        "OSSEC rule id must be 100 through 99999"
    );
    candidate.conditions = DefensiveCondition::Not { condition: Box::new(uri("/token")) };
    assert!(message(&candidate, Backend::Ossec).starts_with("export refused: candidate condition"));
}

#[test]
fn the_evidence_file_recommends_counting() {
    let mut candidate = replayed();
    candidate.evidence.first_seen = Some(Timestamp { seconds: 1_767_268_800, nanos: 0 });
    candidate.evidence.last_seen = Some(Timestamp { seconds: 1_767_268_801, nanos: 5_000_000 });
    candidate.evidence.threat_coverage = Some(Ratio { numerator: 1, denominator: 2 });
    let plan = plan_export(
        &candidate,
        Backend::AwsWafJson,
        TelemetryProfile::ApacheCombined,
        Some(7),
        100,
        "Some(0.5)",
    )
    .unwrap();
    let document = evidence_document(&candidate, &plan.report, "0.5").unwrap();
    assert_eq!(
        document.compact(),
        [
            r#"{"candidate_id":"shenron-cve-2026-0001","cves":["CVE-2026-0001"],"kev":true,"#,
            r#""evidence":{"historical_requests_evaluated":0,"known_threat_findings":1,"#,
            r#""known_threat_findings_matched":0,"known_threat_findings_missed":1,"#,
            r#""other_historical_matches":0,"threat_coverage":0.5,"#,
            r#""first_seen":"2026-01-01T12:00:00Z","last_seen":"2026-01-01T12:00:01.005Z","#,
            r#""replay_completed":true},"recommended_initial_action":"COUNT","#,
            r#""backend_compatibility":{"backend":"aws-waf-json","#,
            r#""telemetry_profile":"apache-combined","status":"FULLY_SUPPORTED","reasons":[]},"#,
            r#""safety_note":"Candidate artifact only. Human review is required; "#,
            r#"no deployment was performed."}"#,
        ]
        .concat()
    );
    candidate.evidence.last_seen = None;
    candidate.evidence.threat_coverage = None;
    let text = evidence_document(&candidate, &plan.report, "0.5").unwrap().compact();
    assert!(text.contains(r#""threat_coverage":null"#) && text.contains(r#""last_seen":null"#));
    // A leap second is written; a time beyond the calendar is not.
    candidate.evidence.last_seen = Some(Timestamp { seconds: 59, nanos: 1_000_000_000 });
    assert!(evidence_document(&candidate, &plan.report, "0.5")
        .unwrap()
        .compact()
        .contains(r#""last_seen":"1970-01-01T00:00:60Z""#));
    for (seconds, nanos) in [
        (58, 1_000_000_000),
        (59, 2_000_000_000),
        (8_210_266_876_800, 0),
        (-8_334_601_228_801, 0),
    ] {
        candidate.evidence.last_seen = Some(Timestamp { seconds, nanos });
        assert!(evidence_document(&candidate, &plan.report, "0.5").is_none());
    }
    for seconds in [8_210_266_876_799, -8_334_601_228_800] {
        candidate.evidence.last_seen = Some(Timestamp { seconds, nanos: 999_999_999 });
        assert!(evidence_document(&candidate, &plan.report, "0.5").is_some());
    }
    assert_eq!(evidence_name(Some("rule")), "rule.evidence.json");
    assert_eq!(evidence_name(None), "candidate.evidence.json");
}
