use shenron::event::{
    HeaderCapability, HttpHeader, LogSource, TelemetryCapabilities, TelemetryProfile, Timestamp,
    TrustedProxy, TrustedProxySet, WebEvent,
};

fn proxies(values: &[&str]) -> TrustedProxySet {
    TrustedProxySet::new(
        values
            .iter()
            .map(|value| value.parse::<TrustedProxy>().unwrap())
            .collect(),
    )
}

#[test]
fn resolves_client_from_a_trusted_peer_and_forwarded_chain() {
    let proxies = proxies(&["198.51.100.0/24"]);
    assert_eq!(
        proxies.validated_forwarded_client_ip(
            Some("198.51.100.10"),
            Some("203.0.113.25, 198.51.100.20"),
        ),
        Some("203.0.113.25".to_owned())
    );
}

#[test]
fn combines_multiple_forwarded_headers_in_observed_order() {
    let proxies = proxies(&["198.51.100.0/24"]);
    let headers = vec![
        HttpHeader {
            name: "X-Forwarded-For".to_owned(),
            value: "203.0.113.25".to_owned(),
        },
        HttpHeader {
            name: "x-forwarded-for".to_owned(),
            value: "198.51.100.20".to_owned(),
        },
    ];
    assert_eq!(
        proxies.validated_client_from_headers(Some("198.51.100.10"), &headers),
        Some("203.0.113.25".to_owned())
    );
}

#[test]
fn resolves_ipv4_mapped_peer_against_an_ipv4_trusted_proxy_network() {
    let proxies = proxies(&["198.51.100.0/24"]);
    assert_eq!(
        proxies.validated_forwarded_client_ip(
            Some("::ffff:198.51.100.10"),
            Some("203.0.113.25, 198.51.100.20"),
        ),
        Some("203.0.113.25".to_owned())
    );
}

#[test]
fn ignores_forwarded_chain_from_an_untrusted_peer() {
    let proxies = proxies(&["198.51.100.0/24"]);
    assert_eq!(
        proxies.validated_forwarded_client_ip(Some("203.0.113.10"), Some("192.0.2.1")),
        None
    );
}

#[test]
fn ignores_forwarded_chain_without_trusted_proxy_configuration() {
    assert_eq!(
        TrustedProxySet::default()
            .validated_forwarded_client_ip(Some("198.51.100.10"), Some("192.0.2.1")),
        None
    );
}

#[test]
fn leaves_client_unavailable_when_every_forwarded_hop_is_trusted() {
    let proxies = proxies(&["198.51.100.0/24"]);
    assert_eq!(
        proxies.validated_forwarded_client_ip(
            Some("198.51.100.10"),
            Some("198.51.100.11, 198.51.100.20"),
        ),
        None
    );
}

#[test]
fn rejects_invalid_trusted_proxy_values() {
    assert!("not-an-address".parse::<TrustedProxy>().is_err());
}

fn event(peer: Option<&str>, forwarded: &[&str]) -> WebEvent {
    WebEvent {
        timestamp: Some(Timestamp { seconds: 0, nanos: 0 }),
        source_ip: peer.map(str::to_owned),
        client_ip: None,
        source_port: None,
        country: None,
        host: Some("host.example".to_owned()),
        method: Some("GET".to_owned()),
        uri: Some("/a?b".to_owned()),
        uri_path: Some("/a".to_owned()),
        uri_query: Some("b".to_owned()),
        uri_fragment: None,
        headers: forwarded
            .iter()
            .map(|value| HttpHeader {
                name: "X-Forwarded-For".to_owned(),
                value: (*value).to_owned(),
            })
            .collect(),
        user_agent: None,
        referer: None,
        status: Some(404),
        response_bytes: None,
        protocol: None,
        request_id: None,
        ja3: None,
        ja4: None,
        tls_protocol: None,
        tls_cipher: None,
        waf_action: None,
        waf_rule_id: None,
        waf_rule_type: None,
        waf_labels: vec!["label".to_owned()],
        waf_non_terminating_rule_ids: Vec::new(),
        log_source: LogSource::AwsWaf,
        raw: "raw".to_owned(),
    }
}

#[test]
fn a_resolved_client_is_written_into_the_event() {
    let set = proxies(&["198.51.100.0/24"]);
    let mut request = event(Some("198.51.100.10"), &["192.0.2.1, 203.0.113.25", "198.51.100.9"]);
    set.resolve_client_ip(&mut request);
    assert_eq!(request.client_ip.as_deref(), Some("203.0.113.25"));
    let mut direct = event(Some("203.0.113.10"), &["192.0.2.1"]);
    set.resolve_client_ip(&mut direct);
    assert_eq!(direct.client_ip, None);
    assert_eq!(set.configured_proxy_networks(), ["198.51.100.0/24"]);
}

#[test]
fn a_single_proxy_address_is_a_network_of_one() {
    let proxy = "2001:db8::1".parse::<TrustedProxy>().unwrap();
    assert_eq!(proxy.display(), "2001:db8::1/128");
    let error = TrustedProxy::parse("not \"an\" address").unwrap_err();
    assert!(error.contains("not \\\"an\\\" address"));
}

#[test]
fn fields_are_found_under_their_names_in_any_case() {
    let request = event(Some("198.51.100.10"), &[]);
    assert_eq!(request.field_values("CS-Method").unwrap(), ["GET"]);
    assert_eq!(request.field_values("sc-status").unwrap(), ["404"]);
    assert_eq!(request.field_values("c-ip").unwrap(), ["198.51.100.10"]);
    assert_eq!(request.field_values("waf_labels").unwrap(), ["label"]);
    assert!(request.field_values("user_agent").is_none());
    assert!(request.field_values("unknown").is_none());
}

#[test]
fn keywords_are_sought_in_the_request_and_the_record() {
    let request = event(None, &["one", "two"]);
    assert_eq!(
        request.keyword_haystack(),
        "GET\nhost.example\n/a?b\nX-Forwarded-For: one\nX-Forwarded-For: two\nraw"
    );
}

#[test]
fn capabilities_unite_and_profiles_do_not_overclaim() {
    let nginx = TelemetryProfile::NginxCombined.capabilities();
    let waf = TelemetryProfile::AwsWaf.capabilities();
    assert!(!nginx.host && !nginx.ja4 && nginx.status);
    assert!(waf.host && !waf.tls_cipher);
    assert_eq!(nginx.headers, HeaderCapability::RefererAndUserAgent);
    assert_eq!(waf.headers, HeaderCapability::Arbitrary);
    let both = nginx.union(waf);
    assert_eq!(both, waf.union(nginx));
    assert!(both.host && both.status);
    assert_eq!(TelemetryCapabilities::default(), waf);
    assert_eq!(
        LogSource::ApacheVhostCombined.telemetry_profile(),
        TelemetryProfile::ApacheVhostCombined
    );
}

#[test]
fn joining_capabilities_ignores_order_grouping_and_repetition() {
    let a = TelemetryProfile::AwsWaf.capabilities();
    let b = TelemetryProfile::NginxCombined.capabilities();
    let c = TelemetryProfile::ApacheVhostCombined.capabilities();
    assert_eq!(a.union(b), b.union(a));
    assert_eq!(a.union(b).union(c), a.union(b.union(c)));
    assert_eq!(a.union(a), a);
    assert!(b.union(c).host && !b.host);
    assert_eq!(b.union(a).headers, HeaderCapability::Arbitrary);
}
