use shenron::comparison::{
    comparability, compare_runs, concentration_delta, cve_diff, first_seen, num, parse_cves,
    run_provenance, safety_note, triage_policy, volume_details, CveRecord, RunArtifacts,
    RunProvenance,
};
use shenron::concentration::RequestConcentration;
use shenron::finding::{Detectability, FindingExplanation, FindingSource, RequestSpecificity};
use shenron::json::Json;
use shenron::numbers::{Median, Ratio};
use shenron::ordered::TextMap;
use shenron::status::StatusClassCounts;
use shenron::volume_report::{
    PathConcentrationSummary, PrivatePathConcentration, PrivateRequestConcentrationReport,
    PrivateSourceConcentration,
};

fn none() -> Ratio {
    Ratio { numerator: 0, denominator: 1 }
}

fn conc(
    paths: Vec<(&str, u64)>,
    sources: Vec<(&str, u64)>,
    median: u64,
) -> PrivateRequestConcentrationReport {
    let mut report = RequestConcentration::with_capabilities(true, true).private_report();
    report.summary.total_requests = 100;
    report.summary.requests_per_minute.peak_requests_per_minute = Some(1);
    report.summary.requests_per_minute.median_requests_per_minute =
        Some(Median { lower: median, upper: median });
    report.paths = paths
        .into_iter()
        .map(|(p, n)| PrivatePathConcentration {
            uri_path: p.into(),
            summary: PathConcentrationSummary {
                requests: n,
                request_share: none(),
                distinct_source_ips: 0,
                requests_per_source_ip: none(),
                response_status_classes: StatusClassCounts::default(),
                response_status_codes: None,
                response_bytes: None,
                requests_with_query: 0,
                distinct_query_strings: 0,
                query_strings_beyond_tracking_cap: 0,
                distinct_query_keys: 0,
                query_keys_beyond_tracking_cap: 0,
            },
            query_keys: Vec::new(),
        })
        .collect();
    report.source_ips = sources
        .into_iter()
        .map(|(ip, n)| PrivateSourceConcentration {
            path_segment_diversity: None,
            source_ip: ip.into(),
            requests: n,
            most_requested_uri_path: None,
            response_status_classes: StatusClassCounts::default(),
            response_status_codes: None,
            response_outcomes: None,
        })
        .collect();
    report
}

#[test]
fn concentration_labels_low_baseline_elevated_and_new() {
    let (b, c) = (
        conc(vec![("/low", 10), ("/high", 30)], vec![], 10),
        conc(vec![("/low", 60), ("/high", 90), ("/new", 2)], vec![], 30),
    );
    let (s, p) = concentration_delta(Some(&b), Some(&c));
    assert_eq!(s.low_baseline_paths, 1);
    assert_eq!(s.elevated_paths, 1);
    assert_eq!(
        p.paths.iter().find(|x| x.key == "/new").unwrap().label,
        "new"
    );
    assert_eq!(s.median_rpm_elevated, Some(true));
    assert_eq!(s.peak_rpm_delta, Some(0));
    assert!(!concentration_delta(None, Some(&c)).0.available);
}

fn finding(source_ip: &str, host: &str, path: &str, ja4: &str) -> FindingExplanation {
    FindingExplanation {
        template_id: "template".to_owned(),
        cves: vec!["CVE-2026-0001".to_owned()],
        detectability: Detectability::High,
        request_specificity: RequestSpecificity::RequestSpecific,
        timestamp: None,
        source_ip: Some(source_ip.to_owned()),
        client_ip: None,
        host: Some(host.to_owned()),
        method: None,
        uri_path: Some(path.to_owned()),
        uri_query: None,
        waf_action: None,
        waf_rule_id: None,
        waf_rule_type: None,
        waf_labels: vec![],
        waf_non_terminating_rule_ids: vec![],
        headers: vec![],
        ja3: None,
        ja4: Some(ja4.to_owned()),
        request_id: None,
        log_source: None,
        source: FindingSource::Nuclei,
        rule_title: None,
        sigma_level: None,
    }
}

#[test]
fn diffs_cves_and_first_seen_private_entities() {
    let mut baseline = TextMap::new();
    baseline.insert(
        "CVE-2026-0001".to_owned(),
        CveRecord {
            request_count: 2,
            sources: 1,
            ja4: 1,
            gap: Some("0.5".to_owned()),
        },
    );
    let mut current = TextMap::new();
    current.insert(
        "CVE-2026-0001".to_owned(),
        CveRecord {
            request_count: 5,
            sources: 2,
            ja4: 2,
            gap: Some("0.75".to_owned()),
        },
    );
    current.insert(
        "CVE-2026-0002".to_owned(),
        CveRecord {
            request_count: 1,
            sources: 1,
            ja4: 0,
            gap: None,
        },
    );
    let cves = cve_diff(Some(&baseline), Some(&current));
    assert_eq!(cves.newly_observed_cves, ["CVE-2026-0002"]);
    assert_eq!(cves.common_cve_deltas[0].request_count.delta, 3);
    let (counts, private) = first_seen(
        Some(&vec![finding("198.51.100.1", "old.example", "/old", "old-ja4")]),
        Some(&vec![
            finding("198.51.100.1", "old.example", "/old", "old-ja4"),
            finding("198.51.100.2", "new.example", "/new", "new-ja4"),
        ]),
    );
    assert_eq!(counts.source_ips, 1);
    assert_eq!(counts.hosts, 1);
    assert_eq!(counts.uri_paths, 1);
    assert_eq!(private.source_ips, ["198.51.100.2"]);
}

fn run(profile: &str, revision: &str) -> RunArtifacts {
    RunArtifacts {
        provenance: RunProvenance {
            shenron_version: None,
            telemetry_profile: Some(profile.to_owned()),
            nuclei_revision: Some(revision.to_owned()),
            filter_from: Some("2026-01-01T00:00:00Z".to_owned()),
            filter_to: Some("2026-01-02T00:00:00Z".to_owned()),
            artifacts_sha256: Vec::new(),
        },
        triage_policy: Some("default".to_owned()),
        cves: None,
        findings: None,
        concentration: None,
    }
}

#[test]
fn labels_cti_revision_when_comparable_and_not_comparable_on_profile_mismatch() {
    let cti = comparability(&run("aws-waf", "one"), &run("aws-waf", "two"));
    assert!(cti.comparable);
    assert_eq!(cti.kind, "cti-revision");

    let mismatch = comparability(&run("aws-waf", "one"), &run("apache-combined", "two"));
    assert!(!mismatch.comparable);
    assert_eq!(mismatch.kind, "not-comparable");
    assert!(mismatch
        .reasons
        .iter()
        .any(|reason| reason.contains("telemetry_profile")));
}

#[test]
fn the_kind_of_a_comparison_names_what_changed() {
    let mut later = run("aws-waf", "one");
    later.provenance.filter_to = None;
    assert_eq!(comparability(&run("aws-waf", "one"), &later).kind, "calendar-window");
    assert_eq!(
        comparability(&run("aws-waf", "one"), &run("aws-waf", "one")).kind,
        "artifact-diff"
    );
    let mut unknown = run("aws-waf", "one");
    unknown.triage_policy = None;
    let result = comparability(&run("aws-waf", "one"), &unknown);
    assert_eq!(
        result.reasons,
        [
            "triage baseline is unavailable for one or both runs",
            "triage baseline differs or is unavailable"
        ]
    );
}

#[test]
fn missing_artifacts_are_disclosed() {
    let result = compare_runs(&run("aws-waf", "one"), &run("aws-waf", "two"));
    assert!(!result.sanitized.cve_diff.available);
    assert_eq!(
        result.private.first_seen_entities.unavailable,
        ["baseline private-findings.jsonl is unavailable"]
    );
    assert!(!result.sanitized.concentration_delta.available);
    assert_eq!(result.sanitized.safety_note, safety_note());
    assert_eq!(result.private.report_kind, "TEMPORAL_COMPARISON_PRIVATE");
    assert_eq!(
        result.sanitized.provenance.current.nuclei_revision.as_deref(),
        Some("two")
    );
}

#[test]
fn validated_clients_are_compared_only_where_both_runs_have_them() {
    let mut old = finding("198.51.100.1", "h", "/p", "j");
    old.client_ip = Some("192.0.2.1".to_owned());
    let mut new = finding("198.51.100.1", "h", "/p", "j");
    new.client_ip = Some("192.0.2.2".to_owned());
    let (counts, private) = first_seen(Some(&vec![old]), Some(&vec![new]));
    assert_eq!(counts.client_ips, Some(1));
    assert_eq!(private.client_ips.unwrap(), ["192.0.2.2"]);
    let plain = vec![finding("198.51.100.1", "h", "/p", "j")];
    let (counts, private) = first_seen(Some(&plain), Some(&plain));
    assert_eq!(counts.client_ips, None);
    assert_eq!(private.unavailable.len(), 1);
    let (_, private) = first_seen(Some(&plain), None);
    assert_eq!(
        private.unavailable,
        ["current private-findings.jsonl is unavailable"]
    );
}

#[test]
fn a_report_is_read_from_its_text() {
    let report = Json::parse(
        r#"{"report_kind":"SANITIZED_RESEARCH_OUTPUT","telemetry_profile":"aws-waf","filter_from":"f",
        "cve_findings":[{"cve":"B","request_count":3,"protection_gap_rate":0.25},
        {"cve":"A","unique_source_clusters":2},{"cve":"B","request_count":4}]}"#,
    )
    .unwrap();
    let cves = parse_cves(&report).unwrap();
    assert_eq!(cves.len(), 2);
    assert_eq!(cves.get("B").unwrap().request_count, 4);
    assert_eq!(cves.get("B").unwrap().gap, None);
    assert_eq!(cves.get("A").unwrap().sources, 2);
    let manifest = Json::parse(
        r#"{"shenron_version":"1","hunt_parameters":{"filter_to":"t","triage_policy":{"b":1,"a":[true,null]}}}"#,
    )
    .unwrap();
    let run = run_provenance(Some(&manifest), Some(&report), Vec::new());
    assert_eq!(run.shenron_version.as_deref(), Some("1"));
    assert_eq!(run.telemetry_profile.as_deref(), Some("aws-waf"));
    assert_eq!(run.filter_from.as_deref(), Some("f"));
    assert_eq!(run.filter_to.as_deref(), Some("t"));
    assert_eq!(
        triage_policy(Some(&manifest)).as_deref(),
        Some(r#"{"a":[true,null],"b":1}"#)
    );
    assert!(parse_cves(&manifest).is_none());
    let nameless = Json::parse(
        r#"{"report_kind":"SANITIZED_RESEARCH_OUTPUT","cve_findings":[{"request_count":1}]}"#,
    )
    .unwrap();
    assert!(parse_cves(&nameless).is_none());
}

#[test]
fn volumes_are_set_against_their_baseline() {
    let mut b = TextMap::new();
    let mut c = TextMap::new();
    b.insert("k".to_owned(), 30);
    c.insert("k".to_owned(), 89);
    let details = volume_details(&b, &c);
    assert_eq!(details[0].label, "unchanged");
    let ratio = details[0].ratio.unwrap();
    assert_eq!((ratio.numerator, ratio.denominator), (89, 30));
    c.insert("k".to_owned(), 90);
    assert_eq!(volume_details(&b, &c)[0].label, "elevated");
    assert_eq!(num(7, 2).delta, -5);
    assert_eq!(num(0, u64::MAX).delta, -1);
}

#[test]
fn volumes_are_elevated_where_their_quotient_reaches_three() {
    let exact: u64 = 1 << 53;
    let mut bases: Vec<u64> = vec![30, 31, 1_000, exact / 3, u64::MAX / 3, u64::MAX];
    for shift in [51, 52, 53, 54, 60, 61, 62] {
        for offset in 0..6 {
            bases.push((1 << shift) + offset);
            bases.push((1 << shift) - offset);
        }
    }
    let mut b = TextMap::new();
    let mut c = TextMap::new();
    for base in bases {
        let triple = base as u128 * 3;
        for offset in -3000..3000 {
            let Ok(current) = u64::try_from(triple as i128 + offset) else {
                continue;
            };
            b.insert("k".to_owned(), base);
            c.insert("k".to_owned(), current);
            let expected = if current as f64 / base as f64 >= 3.0 { "elevated" } else { "unchanged" };
            assert_eq!(volume_details(&b, &c)[0].label, expected, "{current} / {base}");
        }
    }
    // One less than three times a baseline above 2^52 is divided to three.
    b.insert("k".to_owned(), (1 << 52) + 1);
    c.insert("k".to_owned(), 3 * ((1 << 52) + 1) - 1);
    assert_eq!(volume_details(&b, &c)[0].label, "elevated");
}

#[test]
fn medians_are_elevated_where_their_quotient_reaches_three() {
    let middle = |m: Median| (m.lower as f64 + m.upper as f64) / 2.0;
    let at = |lower: u64, upper: u64| {
        let mut report = conc(vec![], vec![], 0);
        report.summary.requests_per_minute.median_requests_per_minute =
            Some(Median { lower, upper });
        report
    };
    let third: u64 = u64::MAX / 3;
    for (b, c) in [
        ((1, 2), (4, 5)),
        ((1, 2), (4, 4)),
        (((1 << 52) + 1, (1 << 52) + 1), (3 << 52, (3 << 52) + 4)),
        (((1 << 52) + 1, (1 << 52) + 2), ((3 << 52) + 3, (3 << 52) + 5)),
        (((1 << 53) + 1, (1 << 53) + 1), (3 << 53, 3 << 53)),
        ((third, third), (u64::MAX - 2048, u64::MAX)),
        ((third, third), (u64::MAX - 4096, u64::MAX - 4096)),
        ((0, 1), (u64::MAX, u64::MAX)),
    ] {
        let (before, after) = (at(b.0, b.1), at(c.0, c.1));
        let (summary, _) = concentration_delta(Some(&before), Some(&after));
        let ratio = middle(Median { lower: c.0, upper: c.1 }) / middle(Median { lower: b.0, upper: b.1 });
        assert_eq!(summary.median_rpm_elevated, Some(ratio >= 3.0), "{b:?} {c:?}");
    }
    let (summary, _) = concentration_delta(Some(&at(0, 0)), Some(&at(1, 1)));
    assert_eq!(summary.median_rpm_elevated, None);
}

#[test]
fn the_artifacts_of_a_run_are_read_and_hashed() {
    let manifest = br#"{"shenron_version":"1","telemetry_profile":"aws-waf","hunt_parameters":{"filter_to":"t","triage_policy":{"b":1,"a":2}}}"#;
    let sanitized = br#"{"report_kind":"SANITIZED_RESEARCH_OUTPUT","telemetry_profile":"nginx","filter_from":"f","cve_findings":[{"cve":"CVE-2026-0001","request_count":3}]}"#;
    let run = shenron::comparison::load_run(
        Some(&manifest[..]),
        Some(&sanitized[..]),
        Some(&b"abc"[..]),
        None,
        None,
        None,
    )
    .unwrap();
    assert_eq!(run.provenance.shenron_version.as_deref(), Some("1"));
    assert_eq!(run.provenance.telemetry_profile.as_deref(), Some("aws-waf"));
    assert_eq!(run.provenance.filter_from.as_deref(), Some("f"));
    assert_eq!(run.provenance.filter_to.as_deref(), Some("t"));
    assert_eq!(run.triage_policy.as_deref(), Some("{\"a\":2,\"b\":1}"));
    assert_eq!(run.cves.unwrap().get("CVE-2026-0001").unwrap().request_count, 3);
    let hashes = &run.provenance.artifacts_sha256;
    assert_eq!(hashes[0].0, "private-findings.jsonl");
    assert_eq!(
        hashes[0].1.as_deref(),
        Some("ba7816bf8f01cfea414140de5dae2223b00361a396177a9cb410ff61f20015ad")
    );
    assert_eq!(hashes[1], ("request-concentration.json".to_owned(), None));
    assert!(hashes[2].1.is_some() && hashes[3].1.is_some());

    let refused = |manifest: &[u8], sanitized: &[u8]| {
        shenron::comparison::load_run(Some(manifest), Some(sanitized), None, None, None, None)
            .unwrap_err()
    };
    assert_eq!(
        refused(b"{", b"["),
        shenron::comparison::UnreadableArtifact::Manifest
    );
    assert_eq!(
        refused(b"{}", b"["),
        shenron::comparison::UnreadableArtifact::SanitizedReport
    );
}
