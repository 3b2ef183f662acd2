use std::collections::BTreeSet;

use shenron::access_log::{parse_combined_line, AccessLogFormat};
use shenron::lab::{
    deterministic_events, large_events, mutation_events, volumetric_concentration_events,
    Expected, GeneratorConfig, Lcg, Profile, SyntheticFormat, TruthClass, TruthRecord, JA4_SHARED,
    RATE_UNITS, VOLUMETRIC_CONCENTRATION_DURATION_MS, VOLUMETRIC_CONCENTRATION_EVENTS,
    VOLUMETRIC_CONCENTRATION_PATH, VOLUMETRIC_CONCENTRATION_SOURCE_IPS,
};
use shenron::lab_corpus::{check_config, fits, generate, generate_for_format, GenerateError};
use shenron::lab_validation::{
    add_truth, countable, report_lines, validate_actual, RuleMatches, ShareTexts,
};
use shenron::numbers::Ratio;
use shenron::ordered::{TextMap, TextSet};

fn config(profile: Profile, events: usize) -> GeneratorConfig {
    GeneratorConfig {
        profile,
        events,
        ..GeneratorConfig::default()
    }
}

fn volume() -> GeneratorConfig {
    config(
        Profile::VolumetricConcentration,
        VOLUMETRIC_CONCENTRATION_EVENTS,
    )
}

#[test]
fn the_generator_steps_from_its_seed() {
    assert_eq!(Lcg::new(42).draw(), 9_039_304_369_631_583_587);
    let mut zero = Lcg::new(0);
    assert_eq!(zero.draw(), 1);
    assert_eq!(zero.draw(), 6_364_136_223_846_793_006);
}

#[test]
fn a_seed_fixes_a_large_corpus() {
    let mut chosen = config(Profile::Large, 3);
    chosen.attack_units = RATE_UNITS / 2;
    assert!(fits(&chosen));
    let events = large_events(&chosen);
    assert_eq!(events.len(), 3);

    assert_eq!(events[0].class, TruthClass::Malicious);
    assert_eq!(events[0].expected_rule_ids, ["test-ja4-uri"]);
    assert_eq!(events[0].path, "/vulnerable/admin");
    assert_eq!(events[0].ja4.as_deref(), Some(JA4_SHARED));
    assert_eq!(events[0].host, "app1.synthetic.test");
    assert_eq!(events[0].source_ip, "203.0.113.23");
    assert_eq!(events[0].timestamp, 1_735_690_215_071);

    assert_eq!(events[1].class, TruthClass::Benign);
    assert_eq!(events[1].path, "/api/products/123");
    assert_eq!(events[1].method, "POST");
    assert_eq!(events[1].args.as_deref(), Some("page=1&sort=recent"));
    assert_eq!(events[1].ja4.as_deref(), Some(JA4_SHARED));
    assert_eq!(events[1].source_ip, "203.0.113.15");
    assert_eq!(events[1].timestamp, 1_735_687_297_367);

    assert_eq!(events[2].args, None);
    assert_eq!(events[2].source_ip, "203.0.113.7");
    assert_eq!(events[2].timestamp, 1_735_686_494_351);
}

#[test]
fn records_are_written_for_each_format() {
    let events = deterministic_events(&config(Profile::Deterministic, 15));
    assert_eq!(events.len(), 15);
    assert_eq!(
        events[0].write(SyntheticFormat::AwsWaf).unwrap(),
        "{\"action\":\"ALLOW\",\"formatVersion\":1,\"httpRequest\":{\"clientIp\":\"198.51.100.2\",\"country\":\"US\",\"headers\":[{\"name\":\"Host\",\"value\":\"api.synthetic.test\"},{\"name\":\"User-Agent\",\"value\":\"Mozilla/5.0 synthetic\"}],\"httpMethod\":\"GET\",\"httpVersion\":\"HTTP/2.0\",\"requestId\":\"evt-000001\",\"uri\":\"/\"},\"httpSourceId\":\"app/synthetic/0001\",\"httpSourceName\":\"ALB\",\"ja3Fingerprint\":\"0123456789abcdef0123456789abcdef\",\"labels\":[],\"nonTerminatingMatchingRules\":[{\"action\":\"COUNT\",\"ruleId\":\"synthetic-count\"}],\"terminatingRuleId\":\"Default_Action\",\"terminatingRuleType\":\"REGULAR\",\"timestamp\":1735689601000,\"webaclId\":\"synthetic-web-acl\"}"
    );
    assert_eq!(
        events[1].write(SyntheticFormat::NginxCombined).unwrap(),
        "198.51.100.3 - - [01/Jan/2025:00:00:02 +0000] \"GET /api/users/me?expand=profile HTTP/1.1\" 200 0 \"-\" \"Mozilla/5.0 synthetic\""
    );
    let blocked = events[9].write(SyntheticFormat::AwsWaf).unwrap();
    assert!(blocked.contains("\"terminatingRuleId\":\"synthetic-block\""));
    let truth = events[2].truth();
    assert_eq!(truth.event_id, "evt-000003");
    assert!(truth.expected.expected_match);
    assert_eq!(truth.expected.expected_rule_ids, ["test-path-traversal"]);
    let mutated = mutation_events(&config(Profile::Mutations, 6));
    assert_eq!(mutated.len(), 6);
    assert_eq!(mutated[0].headers[0].0, "User-Agent");
}

#[test]
fn combined_corpora_can_be_read_back() {
    let result = generate_for_format(
        &config(Profile::Deterministic, 15),
        SyntheticFormat::ApacheCombined,
        "0.1.0",
    )
    .unwrap();
    assert_eq!(result.lines.len(), 16);
    let read = result
        .lines
        .iter()
        .filter(|line| parse_combined_line(line, AccessLogFormat::ApacheCombined).is_ok())
        .count();
    assert_eq!(read, 15);
    assert_eq!(result.lines[15], "malformed combined line");
    assert_eq!(result.manifest.expected_parser_errors, 1);
    assert_eq!(result.manifest.generator_version, "0.1.0");
}

#[test]
fn truth_does_not_depend_on_the_format() {
    let chosen = config(Profile::Demo, 11);
    let waf = generate(&chosen, "v").unwrap();
    let combined = generate_for_format(&chosen, SyntheticFormat::NginxCombined, "v").unwrap();
    assert_eq!(format!("{:?}", waf.truth), format!("{:?}", combined.truth));
    assert_ne!(waf.lines, combined.lines);
    assert_eq!(waf.manifest.telemetry_format, SyntheticFormat::AwsWaf);
    assert_eq!(waf.manifest.expected_parser_errors, 0);
}

#[test]
fn the_volume_profile_keeps_its_shape() {
    let events = volumetric_concentration_events(&volume());
    assert_eq!(events.len(), VOLUMETRIC_CONCENTRATION_EVENTS);
    let focus: Vec<_> = events
        .iter()
        .filter(|event| event.path == VOLUMETRIC_CONCENTRATION_PATH)
        .collect();
    assert_eq!(focus.len(), 12_000);
    let focus_sources: BTreeSet<&str> =
        focus.iter().map(|event| event.source_ip.as_str()).collect();
    assert_eq!(focus_sources.len(), 350);
    let sources: BTreeSet<&str> = events.iter().map(|event| event.source_ip.as_str()).collect();
    assert_eq!(sources.len(), VOLUMETRIC_CONCENTRATION_SOURCE_IPS);
    // Seven address blocks hold 55 % of the requests for the path.
    let leading = focus
        .iter()
        .filter(|event| {
            let block: u32 = event.source_ip.split('.').nth(2).unwrap().parse().unwrap();
            block < 7
        })
        .count();
    assert_eq!(leading, 6_600);
    let burst = events
        .iter()
        .filter(|event| (event.timestamp - 1_735_689_600_000) / 60_000 == 30)
        .count();
    assert_eq!(burst, 5_000);
    assert_eq!(focus[0].response_status, Some(200));
    assert_eq!(focus[1].response_status, Some(404));
    assert!(events.iter().all(|event| event.class == TruthClass::Unknown));
    let manifest = generate(&volume(), "v").unwrap().manifest;
    assert_eq!(manifest.attack_units, 0);
    assert_eq!(manifest.source_ips, VOLUMETRIC_CONCENTRATION_SOURCE_IPS);
}

#[test]
fn unusable_configurations_are_refused() {
    let mut rate = config(Profile::Large, 1);
    rate.attack_units = RATE_UNITS + 1;
    assert_eq!(check_config(&rate), Err(GenerateError::AttackRate));
    assert_eq!(
        GenerateError::AttackRate.message(),
        "attack rate must be between 0 and 1"
    );
    let mut hosts = config(Profile::Large, 1);
    hosts.hosts = 0;
    assert_eq!(check_config(&hosts), Err(GenerateError::NoHostsOrSources));
    let mut sources = config(Profile::Large, 1);
    sources.source_ips = 0;
    assert_eq!(
        check_config(&sources).unwrap_err().message(),
        "hosts and source IPs must be positive"
    );
    let mut few = volume();
    few.events = 10;
    assert_eq!(
        generate(&few, "v").unwrap_err().message(),
        "volumetric-concentration requires exactly 40000 events to preserve its documented shape"
    );
    let mut short = volume();
    short.duration_ms = VOLUMETRIC_CONCENTRATION_DURATION_MS - 1;
    assert_eq!(
        generate(&short, "v").unwrap_err().message(),
        "volumetric-concentration requires duration-ms=3600000 to preserve its documented minute-rate shape"
    );
    assert_eq!(check_config(&volume()), Ok(()));
    let mut distant = config(Profile::Demo, 11);
    distant.start_timestamp_ms = 9_000_000_000_000_000;
    assert!(fits(&distant));
    assert_eq!(
        generate_for_format(&distant, SyntheticFormat::NginxCombined, "v").unwrap_err(),
        GenerateError::Timestamp
    );
    assert_eq!(
        GenerateError::Timestamp.message(),
        "synthetic timestamp is out of range"
    );
    distant.start_timestamp_ms = i64::MAX;
    assert!(!fits(&distant));
}

fn record(id: &str, class: TruthClass, rules: &[&str]) -> (String, TruthRecord) {
    let expected_rule_ids: Vec<String> = rules.iter().map(|rule| (*rule).to_owned()).collect();
    (
        id.to_owned(),
        TruthRecord {
            event_id: id.to_owned(),
            expected: Expected {
                class,
                cves: Vec::new(),
                expected_match: !expected_rule_ids.is_empty(),
                expected_rule_ids,
            },
        },
    )
}

fn truth(records: Vec<(String, TruthRecord)>) -> TextMap<TruthRecord> {
    let mut map = TextMap::new();
    for (id, record) in records {
        map.insert(id, record);
    }
    map
}

fn found(pairs: &[(&str, &[&str])]) -> TextMap<TextSet> {
    let mut map = TextMap::new();
    for (id, rules) in pairs {
        let mut set = TextSet::new();
        for rule in *rules {
            set.insert((*rule).to_owned());
        }
        map.insert((*id).to_owned(), set);
    }
    map
}

#[test]
fn findings_are_held_against_the_truth() {
    let truth = truth(vec![
        record("a", TruthClass::Malicious, &["r1"]),
        record("b", TruthClass::Malicious, &["r2", "r1"]),
        record("c", TruthClass::Benign, &[]),
        record("d", TruthClass::Benign, &[]),
        record("e", TruthClass::Unknown, &[]),
        record("f", TruthClass::Malicious, &[]),
    ]);
    let actual = found(&[
        ("a", &["r1"]),
        ("b", &["r1"]),
        ("c", &["r9"]),
        ("elsewhere", &["r1"]),
    ]);
    assert!(countable(&truth, &actual));
    let report = validate_actual(&truth, &actual, 1, 0);
    assert_eq!(report.status, "FAIL");
    let metrics = report.metrics;
    assert_eq!(metrics.events, 6);
    assert_eq!(metrics.expected_malicious, 3);
    assert_eq!(metrics.expected_benign, 2);
    assert_eq!(metrics.expected_detections, 3);
    assert_eq!(metrics.detected_expected, 2);
    assert_eq!(metrics.missed, 1);
    assert_eq!(metrics.unexpected_matches, 1);
    assert_eq!(metrics.parser_errors, 1);
    assert_eq!(metrics.true_positives, 1);
    assert_eq!(metrics.false_negatives, 1);
    assert_eq!(metrics.false_positives, 1);
    assert_eq!(metrics.true_negatives, 1);
    let half = Some(Ratio { numerator: 1, denominator: 2 });
    assert_eq!(report.recall, half);
    assert_eq!(report.precision, half);
    assert_eq!(report.false_positive_rate, half);
    let failures: Vec<(&str, &str, &str)> = report
        .failures
        .iter()
        .map(|failure| {
            (
                failure.case_id.as_str(),
                failure.category.as_str(),
                failure.details.as_str(),
            )
        })
        .collect();
    assert_eq!(
        failures,
        [
            ("parser", "PARSER_ERROR", "expected 0 parser errors, observed 1"),
            ("b", "EXPECTED_RULE_MISSED", "the expected rule did not produce a finding"),
            ("c", "EXPECTED_BEHAVIOR_ERROR", "unexpected finding from rule `r9`"),
        ]
    );
    assert_eq!(report.failures[1].expected_rule.as_deref(), Some("r2"));
}

#[test]
fn a_clean_run_passes() {
    let truth = truth(vec![record("a", TruthClass::Malicious, &["r1"])]);
    let report = validate_actual(&truth, &found(&[("a", &["r1"])]), 1, 1);
    assert_eq!(report.status, "PASS");
    assert!(report.failures.is_empty());
    assert_eq!(report.recall, Some(Ratio { numerator: 1, denominator: 1 }));
    assert_eq!(report.false_positive_rate, None);
}

#[test]
fn matches_are_collected_by_case() {
    let mut records = TextMap::new();
    for rules in [&["r9"][..], &["r1", "r2"][..]] {
        let (_, expected) = record("a", TruthClass::Malicious, rules);
        add_truth(&mut records, expected);
    }
    assert_eq!(records.len(), 1);
    let mut matches = RuleMatches::new();
    matches.finding(Some("a"), "r1".to_owned());
    matches.finding(None, "r7".to_owned());
    matches.event(Some("a"), &vec!["r2".to_owned(), "r2".to_owned()]);
    matches.event(None, &vec!["r8".to_owned()]);
    matches.parser_error();
    assert_eq!(matches.parser_errors(), 1);
    assert_eq!(matches.validate(&records, Some(1)).unwrap().status, "PASS");
    let report = matches.validate(&records, None).unwrap();
    assert_eq!(report.status, "FAIL");
    assert_eq!(report.failures.len(), 1);
    let printed = ShareTexts {
        recall: "1.000".to_owned(),
        precision: "1.000".to_owned(),
        false_positive_rate: String::new(),
    };
    let lines = report_lines(&report, &printed);
    assert_eq!(lines[0], "Events:                 1");
    assert_eq!(lines[12], "Recall:                 1.000");
    assert_eq!(lines[14], "False positive rate:    n/a");
    assert_eq!(lines[15], "");
    assert_eq!(lines[17], "FAIL");
    assert_eq!(
        lines[18],
        "FAIL parser [PARSER_ERROR] expected 0 parser errors, observed 1"
    );
    assert_eq!(lines.len(), 19);
}

#[test]
fn configurations_fit_up_to_the_last_time() {
    let mut large = config(Profile::Large, 1);
    large.duration_ms = 1_000;
    large.start_timestamp_ms = i64::MIN + 999;
    assert!(fits(&large));
    large.start_timestamp_ms = i64::MIN + 998;
    assert!(!fits(&large));
    large.start_timestamp_ms = i64::MAX - 1_000;
    assert!(fits(&large));
    large.start_timestamp_ms = i64::MAX - 999;
    assert!(!fits(&large));
    let mut volumes = volume();
    volumes.seed = u64::MAX - 39_999;
    assert!(fits(&volumes));
    volumes.seed = u64::MAX - 39_998;
    assert!(!fits(&volumes));
}
