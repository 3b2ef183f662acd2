use shenron::bot_ranges::{
    parse_published_ranges, published_ranges_from_json, snapshot_from_downloads, source_catalog,
    BotOperatorSnapshot, BotRangeAccumulator, BotRangeDatabase, BotRangeError, BotRangeSnapshot,
    BotRangeSourceDefinition, BOT_RANGE_REPORT_KIND, BOT_RANGE_SAFETY_NOTE,
};
use shenron::event::{LogSource, Timestamp, WebEvent};
use shenron::ordered::TextMap;

fn event(source_ip: &str, user_agent: &str) -> WebEvent {
    WebEvent {
        timestamp: Some(Timestamp { seconds: 0, nanos: 0 }),
        source_ip: Some(source_ip.to_owned()),
        client_ip: None,
        source_port: None,
        country: None,
        host: None,
        method: Some("GET".to_owned()),
        uri: Some("/".to_owned()),
        uri_path: Some("/".to_owned()),
        uri_query: None,
        uri_fragment: None,
        headers: Vec::new(),
        user_agent: Some(user_agent.to_owned()),
        referer: None,
        status: Some(200),
        response_bytes: None,
        protocol: Some("HTTP/1.1".to_owned()),
        request_id: None,
        ja3: None,
        ja4: None,
        tls_protocol: None,
        tls_cipher: None,
        waf_action: None,
        waf_rule_id: None,
        waf_rule_type: None,
        waf_labels: Vec::new(),
        waf_non_terminating_rule_ids: Vec::new(),
        log_source: LogSource::ApacheCombined,
        raw: String::new(),
    }
}

fn snapshot() -> BotRangeSnapshot {
    BotRangeSnapshot {
        report_kind: BOT_RANGE_REPORT_KIND.to_owned(),
        generated_at: "2026-01-01T00:00:00Z".to_owned(),
        safety_note: BOT_RANGE_SAFETY_NOTE.to_owned(),
        operators: vec![
            BotOperatorSnapshot {
                operator_id: "alpha".to_owned(),
                operator_name: "Alpha".to_owned(),
                user_agent_patterns: vec!["AlphaBot".to_owned(), "SharedBot".to_owned()],
                cidrs: vec!["198.51.100.0/24".to_owned(), "2001:db8:1::/48".to_owned()],
                sources: Vec::new(),
            },
            BotOperatorSnapshot {
                operator_id: "beta".to_owned(),
                operator_name: "Beta".to_owned(),
                user_agent_patterns: vec!["BetaBot".to_owned(), "SharedBot".to_owned()],
                cidrs: vec!["203.0.113.0/24".to_owned()],
                sources: Vec::new(),
            },
        ],
    }
}

fn database() -> BotRangeDatabase {
    BotRangeDatabase::from_snapshot(snapshot()).unwrap()
}

#[test]
fn classifies_inside_outside_and_ipv6_published_ranges() {
    let database = database();
    let mut accumulator = BotRangeAccumulator::default();
    for item in [
        event("198.51.100.7", "AlphaBot/1.0"),
        event("192.0.2.7", "AlphaBot/1.0"),
        event("2001:db8:1::7", "AlphaBot/1.0"),
    ] {
        database.observe(&item, &mut accumulator);
    }
    let (summary, private) = accumulator.reports();
    assert_eq!(summary[0].within_published_ranges_requests, 2);
    assert_eq!(summary[0].outside_published_ranges_requests, 1);
    assert_eq!(summary[0].outside_published_ranges_distinct_source_ips, 1);
    assert_eq!(
        private.operators[0].outside_published_range_sources[0].source_ip,
        "192.0.2.7"
    );
    assert!(!format!("{summary:?}").contains("192.0.2.7"));
}

#[test]
fn overlapping_ua_declarations_are_reported_in_stable_operator_order() {
    let database = database();
    let mut accumulator = BotRangeAccumulator::default();
    database.observe(&event("198.51.100.7", "SharedBot/1.0"), &mut accumulator);
    database.observe(&event("203.0.113.7", "SharedBot/1.0"), &mut accumulator);
    let (summary, _) = accumulator.reports();
    assert_eq!(
        summary
            .iter()
            .map(|item| item.operator_id.as_str())
            .collect::<Vec<_>>(),
        vec!["alpha", "beta"]
    );
    assert_eq!(summary[0].within_published_ranges_requests, 1);
    assert_eq!(summary[0].outside_published_ranges_requests, 1);
    assert_eq!(summary[1].within_published_ranges_requests, 1);
    assert_eq!(summary[1].outside_published_ranges_requests, 1);
}

#[test]
fn parses_ipv4_and_ipv6_prefixes_deterministically() {
    let ranges = published_ranges_from_json(
        br#"{"prefixes":[{"ipv6Prefix":"2001:db8::/32"},{"ipv4Prefix":"198.51.100.0/24"}]}"#,
    )
    .unwrap();
    assert_eq!(ranges, vec!["198.51.100.0/24", "2001:db8::/32"]);
}

fn definition(operator: &str, name: &str, url: &str) -> BotRangeSourceDefinition {
    BotRangeSourceDefinition {
        operator_id: operator.to_owned(),
        operator_name: name.to_owned(),
        user_agent_patterns: vec!["AlphaBot".to_owned()],
        url: url.to_owned(),
    }
}

#[test]
fn freezes_source_url_time_hash_counts_and_exclusions() {
    let sources = source_catalog(vec![definition("alpha", "Alpha", "file:///alpha.json")]);
    let bytes = br#"{"prefixes":[{"ipv4Prefix":"198.51.100.0/24"},{"ipv6Prefix":"bad"}]}"#;
    let mut downloads = TextMap::new();
    downloads.insert("file:///alpha.json".to_owned(), bytes.to_vec());
    let snapshot = snapshot_from_downloads(&sources, &downloads, "2026-01-02T03:04:05Z").unwrap();
    let provenance = &snapshot.operators[0].sources[0];
    assert_eq!(provenance.url, "file:///alpha.json");
    assert_eq!(provenance.retrieved_at, "2026-01-02T03:04:05Z");
    assert_eq!(provenance.sha256.len(), 64);
    assert_eq!(provenance.records, 1);
    assert_eq!(provenance.invalid_records_excluded, 1);
}

#[test]
fn a_catalog_is_ordered_by_operator_and_address() {
    let sources = source_catalog(vec![
        definition("b", "B", "u1"),
        definition("a", "A", "u3"),
        definition("a", "A", "u2"),
    ]);
    let keys: Vec<(&str, &str)> = sources
        .iter()
        .map(|s| (s.operator_id.as_str(), s.url.as_str()))
        .collect();
    assert_eq!(keys, [("a", "u2"), ("a", "u3"), ("b", "u1")]);
}

#[test]
fn the_sources_of_an_operator_are_joined() {
    let sources = vec![
        definition("alpha", "Zeta", "u2"),
        definition("alpha", "Alpha", "u1"),
    ];
    let mut downloads = TextMap::new();
    let first = br#"{"prefixes":[{"ipv4Prefix":"203.0.113.0/24"},{"ipv4Prefix":"203.0.113.0/24"}]}"#;
    let second = br#"{"prefixes":[{"ipv4Prefix":7},{"ipv6Prefix":"2001:DB8::/32"}]}"#;
    downloads.insert("u2".to_owned(), first.to_vec());
    downloads.insert("u1".to_owned(), second.to_vec());
    let snapshot = snapshot_from_downloads(&sources, &downloads, "now").unwrap();
    assert_eq!(snapshot.operators.len(), 1);
    let operator = &snapshot.operators[0];
    assert_eq!(operator.operator_name, "Alpha");
    assert_eq!(operator.user_agent_patterns, ["AlphaBot"]);
    assert_eq!(operator.cidrs, ["2001:db8::/32", "203.0.113.0/24"]);
    assert_eq!(operator.sources[0].url, "u1");
    assert_eq!(operator.sources[0].invalid_records_excluded, 1);
    assert_eq!(operator.sources[1].records, 1);
}

#[test]
fn each_refusal_names_its_reason() {
    let mut other = snapshot();
    other.report_kind = "OTHER \"kind\"".to_owned();
    let error = BotRangeDatabase::from_snapshot(other).unwrap_err();
    assert_eq!(
        error.message(),
        "unsupported bot-range snapshot kind \"OTHER \\\"kind\\\"\"; expected PUBLISHED_BOT_RANGE_SNAPSHOT"
    );
    let mut bad = snapshot();
    bad.operators[1].cidrs.push("x".to_owned());
    let error = BotRangeDatabase::from_snapshot(bad).unwrap_err();
    assert_eq!(error.message(), "invalid published range \"x\" for operator beta");
    let sources = vec![definition("alpha", "Alpha", "u")];
    let error = snapshot_from_downloads(&sources, &TextMap::new(), "now").unwrap_err();
    assert_eq!(error.message(), "no downloaded content for u");
    assert!(matches!(
        parse_published_ranges(b"{"),
        Err(BotRangeError::NotJson)
    ));
    let error = parse_published_ranges(br#"{"prefixes":{}}"#).unwrap_err();
    assert_eq!(error.message(), "published range JSON has no prefixes array");
}

#[test]
fn unplaced_peers_are_counted_and_the_busiest_source_comes_first() {
    let database = database();
    let mut accumulator = BotRangeAccumulator::default();
    assert!(accumulator.can_observe(2));
    let mut unknown = event("not-an-address", "ALPHABOT");
    database.observe(&unknown, &mut accumulator);
    unknown.source_ip = None;
    database.observe(&unknown, &mut accumulator);
    for ip in ["192.0.2.9", "192.0.2.1", "192.0.2.9", "192.0.2.1", "192.0.2.5"] {
        database.observe(&event(ip, "alphabot"), &mut accumulator);
    }
    database.observe(&event("198.51.100.1", "alphabot"), &mut accumulator);
    database.observe(&event("198.51.100.1", "curl"), &mut accumulator);
    let (summary, private) = accumulator.reports();
    assert_eq!(summary.len(), 1);
    assert_eq!(summary[0].declared_requests, 8);
    assert_eq!(summary[0].source_ip_unavailable_requests, 2);
    assert_eq!(summary[0].within_published_ranges_distinct_source_ips, 1);
    let rate = summary[0].outside_published_ranges_rate.unwrap();
    assert_eq!((rate.numerator, rate.denominator), (5, 6));
    let sources: Vec<(&str, u64)> = private.operators[0]
        .outside_published_range_sources
        .iter()
        .map(|s| (s.source_ip.as_str(), s.requests))
        .collect();
    assert_eq!(
        sources,
        [("192.0.2.1", 2), ("192.0.2.9", 2), ("192.0.2.5", 1)]
    );
}
