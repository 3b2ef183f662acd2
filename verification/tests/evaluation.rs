use shenron::access_log::{parse_combined_line, AccessLogFormat};
use shenron::candidate::{
    CandidateEvidence, DefensiveCandidate, RecommendedAction,
};
use shenron::condition::{CompatibilityStatus, DefensiveCondition};
use shenron::evaluation::{
    finish_evaluation, input_fingerprint, shared_file_counts, sorted_by_path, start_evaluation, CohortRole,
    CorpusProgress, EvaluationCorpus, EvaluationError, PathProvenance,
};
use shenron::event::{TelemetryProfile, WebEvent};
use shenron::numbers::Ratio;

#[test]
fn missing_input_fingerprint_is_an_error_without_exposing_the_private_path() {
    let mut file = PathProvenance {
        path: "/private/corpus.log".into(),
        byte_length: Some(42),
        sha256: None,
    };
    assert_eq!(
        input_fingerprint(&file).unwrap_err().message(),
        "input fingerprint unavailable for corpus evaluation provenance"
    );
    file.sha256 = Some("frozen-fingerprint".into());
    assert_eq!(input_fingerprint(&file).unwrap(), "frozen-fingerprint");
}

fn candidate() -> DefensiveCandidate {
    DefensiveCandidate {
        schema_version: 1,
        id: "c".to_owned(),
        conditions: DefensiveCondition::And {
            conditions: vec![DefensiveCondition::UriStartsWith { value: "/a".to_owned() }],
        },
        source_findings: Vec::new(),
        cves: Vec::new(),
        kev: false,
        evidence: CandidateEvidence {
            historical_requests_evaluated: 0,
            known_threat_findings: 0,
            known_threat_findings_matched: 0,
            known_threat_findings_missed: 0,
            other_historical_matches: 0,
            threat_coverage: None,
            first_seen: None,
            last_seen: None,
            replay_completed: false,
        },
        recommended_action: RecommendedAction::Count,
        telemetry_profile: TelemetryProfile::ApacheCombined,
        generation_version: String::new(),
    }
}

fn request(path: &str, source: Option<&str>) -> WebEvent {
    let line = format!(
        "198.51.100.1 - - [24/Aug/2026:11:20:30 +0000] \"GET {path} HTTP/1.1\" 200 12 \"-\" \"-\""
    );
    let mut event = parse_combined_line(&line, AccessLogFormat::ApacheCombined).unwrap();
    event.source_ip = source.map(str::to_owned);
    event
}

fn file(path: &str, sha256: Option<&str>) -> PathProvenance {
    PathProvenance {
        path: path.to_owned(),
        byte_length: Some(1),
        sha256: sha256.map(str::to_owned),
    }
}

fn corpus(expected: Option<Vec<PathProvenance>>) -> EvaluationCorpus {
    EvaluationCorpus {
        input: "in".to_owned(),
        telemetry_profile: TelemetryProfile::ApacheCombined,
        role: CohortRole::Holdout,
        label: Some("label".to_owned()),
        expected_corpus: expected,
    }
}

fn progress(addresses: bool) -> CorpusProgress {
    let candidate = candidate();
    let mut progress = CorpusProgress::new(TelemetryProfile::ApacheCombined);
    progress.parse_error();
    for event in [
        request("/a1", Some("198.51.100.1")),
        request("/a2", None),
        request("/a1", Some("elsewhere")),
        request("/b", Some("198.51.100.2")),
    ] {
        assert!(progress.can_observe(&event));
        progress.observe(&candidate, &event, addresses);
    }
    progress
}

#[test]
fn an_evaluation_counts_matches() {
    let row = progress(false)
        .finish(&candidate(), &corpus(None), vec![file("a", Some("1"))], 1)
        .unwrap();
    assert_eq!(row.role, CohortRole::Holdout);
    assert_eq!(row.label.as_deref(), Some("label"));
    assert_eq!(row.parseable_records, 4);
    assert_eq!(row.parse_errors, 1);
    assert_eq!(row.matching_records, 3);
    assert_eq!(row.match_share, Some(Ratio { numerator: 3, denominator: 4 }));
    assert_eq!(row.source_address_unavailable, 0);
    assert_eq!(row.matches.total_requests, 3);
    assert_eq!(row.top_paths.len(), 1);
    assert_eq!(row.top_paths[0].uri_path, "/a1");
    assert_eq!(row.retained_paths_omitted_from_display, 1);
    assert_eq!(row.retained_peers_omitted_from_display, 1);
    assert_eq!(row.aws_compatibility.status, CompatibilityStatus::FullySupported);
    assert_eq!(row.records_with_absent_condition_fields, 0);
}

#[test]
fn unreadable_peers_are_set_apart_where_addresses_are_used() {
    let row = progress(true)
        .finish(&candidate(), &corpus(None), vec![], 9)
        .unwrap();
    assert_eq!(row.matching_records, 1);
    assert_eq!(row.source_address_unavailable, 1);
    assert_eq!(row.source_address_invalid, 1);
    assert_eq!(row.retained_paths_omitted_from_display, 0);
}

#[test]
fn a_corpus_must_have_its_frozen_provenance() {
    let read = vec![file("a", Some("1")), file("b", Some("2"))];
    let listed = vec![file("b", Some("2")), file("a", Some("1"))];
    assert_eq!(sorted_by_path(&listed)[0].path, "a");
    let frozen = corpus(Some(listed));
    assert!(progress(false)
        .finish(&candidate(), &frozen, read.clone(), 1)
        .is_ok());
    let drifted = corpus(Some(vec![file("a", Some("1")), file("b", Some("3"))]));
    assert_eq!(
        progress(false)
            .finish(&candidate(), &drifted, read, 1)
            .unwrap_err(),
        EvaluationError::CorpusDiffers
    );
}

#[test]
fn evaluations_need_details_and_two_corpora() {
    assert_eq!(
        start_evaluation(b"", b"", 2, 0).unwrap_err().message(),
        "candidate evaluation requires a positive finite detail limit"
    );
    assert_eq!(
        start_evaluation(b"", b"", 1, 1).unwrap_err().message(),
        "evaluation requires at least two explicitly selected corpora"
    );
    let report = start_evaluation(b"abc", b"", 2, 7).unwrap();
    assert_eq!(report.report_kind, "PRIVATE_CANDIDATE_CORPUS_EVALUATION");
    assert_eq!(
        report.candidate_sha256,
        "ba7816bf8f01cfea414140de5dae2223b00361a396177a9cb410ff61f20015ad"
    );
    assert_eq!(
        report.plan_sha256,
        "e3b0c44298fc1c149afbf4c8996fb92427ae41e4649b934ca495991b7852b855"
    );
    assert_eq!(report.maximum_displayed_paths_and_peers, 7);
    assert!(report.corpora.is_empty());
}

#[test]
fn shared_files_are_counted_in_each_cohort() {
    let row = |files: Vec<PathProvenance>| {
        progress(false)
            .finish(&candidate(), &corpus(None), files, 1)
            .unwrap()
    };
    let rows = vec![
        row(vec![file("a", Some("1")), file("b", Some("1")), file("c", Some("2"))]),
        row(vec![file("d", Some("1")), file("e", Some("3")), file("f", Some("3"))]),
        row(vec![]),
    ];
    assert_eq!(shared_file_counts(&rows).unwrap(), [2, 1, 0]);
    let started = start_evaluation(b"abc", b"", 3, 7).unwrap();
    let report = finish_evaluation(started, rows).unwrap();
    let shared: Vec<usize> = report
        .corpora
        .iter()
        .map(|row| row.files_with_identical_bytes_in_another_cohort)
        .collect();
    assert_eq!(shared, [2, 1, 0]);
    assert_eq!(report.corpora[0].matching_records, 3);
    assert_eq!(report.maximum_displayed_paths_and_peers, 7);
    let unknown = vec![row(vec![file("a", None)])];
    assert_eq!(
        shared_file_counts(&unknown).unwrap_err(),
        EvaluationError::NoFingerprint
    );
}
