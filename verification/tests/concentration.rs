use std::collections::BTreeMap;

use shenron::concentration::{
    normalize_rate_windows, RequestConcentration, DEFAULT_MAX_SOURCE_SEGMENTS,
};
use shenron::event::{LogSource, Timestamp, WebEvent};
use shenron::focus::{path_is_under, FocusSelector};
use shenron::focus_groups::{
    add_focus_asn_groups, add_focus_prefix_groups, can_group, FocusPrefixLengths, ResolvedAsn,
};
use shenron::numbers::{Median, MedianRatio, Ratio};
use shenron::ordered::TextSet;
use shenron::status::DEFAULT_MAX_STATUS_CODES_PER_ENTITY;
use shenron::timeline::{MinuteRequestCount, StatusClassMinuteCount};
use shenron::tracking::ConcentrationLimits;

fn float(value: Ratio) -> f64 {
    if value.denominator == 0 {
        0.0
    } else {
        value.numerator as f64 / value.denominator as f64
    }
}

fn median(value: Median) -> f64 {
    (value.lower as f64 + value.upper as f64) / 2.0
}

fn times(value: MedianRatio) -> f64 {
    value.peak as f64 / median(value.median)
}

fn peers(list: &[&str]) -> TextSet {
    let mut set = TextSet::new();
    for peer in list {
        set.insert((*peer).to_owned());
    }
    set
}

fn quiet() -> StatusClassMinuteCount {
    StatusClassMinuteCount {
        minute_epoch: 0,
        informational: 0,
        success: 0,
        redirection: 0,
        client_error: 0,
        server_error: 0,
    }
}

fn most_requested_path(concentration: &RequestConcentration, source: &str) -> Option<String> {
    concentration
        .private_report()
        .source_ips
        .into_iter()
        .find(|entry| entry.source_ip == source)
        .and_then(|entry| entry.most_requested_uri_path)
}

fn event(path: Option<&str>, source_ip: Option<&str>, minute: Option<i64>) -> WebEvent {
    WebEvent {
        timestamp: minute.map(|minute| Timestamp {
            seconds: minute * 60,
            nanos: 0,
        }),
        source_ip: source_ip.map(str::to_owned),
        client_ip: None,
        source_port: None,
        country: None,
        host: None,
        method: Some("GET".to_owned()),
        uri: path.map(str::to_owned),
        uri_path: path.map(str::to_owned),
        uri_query: None,
        uri_fragment: None,
        headers: Vec::new(),
        user_agent: None,
        referer: None,
        status: Some(403),
        response_bytes: Some(10),
        protocol: Some("HTTP/1.1".to_owned()),
        request_id: None,
        ja3: None,
        ja4: None,
        tls_protocol: None,
        tls_cipher: None,
        waf_action: None,
        waf_rule_id: None,
        waf_rule_type: None,
        waf_labels: Vec::new(),
        waf_non_terminating_rule_ids: Vec::new(),
        log_source: LogSource::ApacheCombined,
        raw: String::new(),
    }
}

fn event_with_query(path: &str, source_ip: &str, query: Option<String>) -> WebEvent {
    let mut event = event(Some(path), Some(source_ip), Some(0));
    event.uri_query = query.clone();
    event.uri = Some(match query {
        Some(query) => format!("{path}?{query}"),
        None => path.to_owned(),
    });
    event
}

#[test]
fn measures_top_path_source_convergence_and_minute_rate() {
    let mut concentration = RequestConcentration::new(true);
    for (path, ip, minute) in [
        ("/popular", "198.51.100.1", 0),
        ("/popular", "198.51.100.2", 0),
        ("/popular", "198.51.100.1", 1),
        ("/other", "198.51.100.3", 1),
    ] {
        concentration.observe(&event(Some(path), Some(ip), Some(minute)));
    }
    let summary = concentration.summary();
    let top = summary.top_path.unwrap();
    assert_eq!(top.requests, 3);
    assert_eq!(top.distinct_source_ips, 2);
    assert_eq!(float(top.requests_per_source_ip), 1.5);
    assert_eq!(float(top.request_share), 0.75);
    assert_eq!(top.response_status_classes.client_error, 3);
    assert_eq!(top.response_bytes, Some(30));
    assert_eq!(
        summary.requests_per_minute.peak_requests_per_minute,
        Some(2)
    );
    assert_eq!(
        summary
            .requests_per_minute
            .median_requests_per_minute
            .map(median),
        Some(2.0)
    );
    assert_eq!(
        summary.requests_per_minute.peak_to_median_ratio.map(times),
        Some(1.0)
    );
}

#[test]
fn groups_retained_focus_sources_by_asn_and_discloses_unresolved_counts() {
    let mut concentration = RequestConcentration::new(true);
    concentration.focus_on(FocusSelector::ExactPath("/focus".to_owned()));
    for (ip, count) in [("198.51.100.1", 3), ("198.51.101.2", 2), ("203.0.113.9", 1)] {
        for _ in 0..count {
            concentration.observe(&event(Some("/focus"), Some(ip), Some(0)));
        }
    }
    let mut focus = concentration.private_report().focus.unwrap();
    add_focus_prefix_groups(&mut focus, FocusPrefixLengths::default());
    let resolved: Vec<Option<ResolvedAsn>> = focus
        .sources
        .iter()
        .map(|source| match source.source_ip.as_str() {
            "198.51.100.1" | "198.51.101.2" => Some(ResolvedAsn {
                asn: 64_500,
                org: "Example Transit".to_owned(),
            }),
            _ => None,
        })
        .collect();
    add_focus_asn_groups(&mut focus, &resolved);

    assert_eq!(focus.network_prefix_groups.len(), 3);
    let asn = focus.asn.unwrap();
    assert_eq!(asn.groups.len(), 1);
    assert_eq!(asn.groups[0].asn, 64_500);
    assert_eq!(asn.groups[0].requests, 5);
    assert_eq!(asn.groups[0].distinct_source_ips, 2);
    assert_eq!(float(asn.groups[0].request_share), 5.0 / 6.0);
    assert_eq!(asn.unresolved_source_ips, 1);
    assert_eq!(asn.unresolved_requests, 1);
}

#[test]
fn keeps_private_minute_series_sorted_and_discloses_bucket_caps() {
    let mut concentration = RequestConcentration::with_limits(
        true,
        ConcentrationLimits {
            max_minute_buckets: 2,
            ..ConcentrationLimits::default()
        },
    );
    concentration.focus_on_path("/target");
    for minute in [2, 0, 2, 3] {
        concentration.observe(&event(Some("/target"), Some("198.51.100.1"), Some(minute)));
    }

    let private = concentration.private_report();
    assert_eq!(
        private.requests_per_minute_series,
        vec![
            MinuteRequestCount {
                minute_epoch: 0,
                requests: 1,
            },
            MinuteRequestCount {
                minute_epoch: 2,
                requests: 2,
            },
        ]
    );
    assert_eq!(private.minute_buckets_beyond_cap, 1);
    assert_eq!(private.status_class_requests_per_minute_series.len(), 2);
    assert_eq!(
        private
            .status_class_requests_per_minute_series
            .iter()
            .map(|point| point.client_error)
            .sum::<u64>(),
        3
    );
    let focus = private.focus.unwrap();
    assert_eq!(focus.requests_per_minute_series.len(), 2);
    assert_eq!(focus.minute_buckets_beyond_cap, 1);

    let sanitized = format!("{:?}", concentration.summary());
    assert!(!sanitized.contains("requests_per_minute_series"));
    assert!(!sanitized.contains("status_class_requests_per_minute_series"));
    assert!(!sanitized.contains("198.51.100.1"));
    assert!(!sanitized.contains("/target"));
}

#[test]
fn keeps_status_class_minute_series_sorted_and_counted_by_class() {
    let mut concentration = RequestConcentration::new(true);
    for (minute, status) in [(2, 200), (0, 404), (0, 201), (1, 302), (1, 500), (1, 101)] {
        let mut observed = event(Some("/status"), Some("198.51.100.1"), Some(minute));
        observed.status = Some(status);
        concentration.observe(&observed);
    }

    assert_eq!(
        concentration
            .private_report()
            .status_class_requests_per_minute_series,
        vec![
            StatusClassMinuteCount {
                minute_epoch: 0,
                success: 1,
                client_error: 1,
                ..quiet()
            },
            StatusClassMinuteCount {
                minute_epoch: 1,
                informational: 1,
                redirection: 1,
                server_error: 1,
                ..quiet()
            },
            StatusClassMinuteCount {
                minute_epoch: 2,
                success: 1,
                ..quiet()
            },
        ]
    );
}

#[test]
fn finds_path_concentration_even_when_sources_are_distributed() {
    let mut concentration = RequestConcentration::new(true);
    for index in 0..200 {
        concentration.observe(&event(
            Some("/shared-resource"),
            Some(&format!("198.51.100.{index}")),
            Some(index),
        ));
    }
    for index in 0..200 {
        concentration.observe(&event(
            Some("/other-resource"),
            Some(&format!("203.0.113.{index}")),
            Some(index),
        ));
    }
    let top = concentration.summary().top_path.unwrap();
    assert_eq!(top.requests, 200);
    assert_eq!(top.distinct_source_ips, 200);
    assert_eq!(float(top.requests_per_source_ip), 1.0);
    assert_eq!(float(top.request_share), 0.5);
    assert!(concentration
        .private_report()
        .source_ips
        .iter()
        .all(|source| source.requests * 100 < 400));
}

#[test]
fn requests_per_distinct_source_avoids_a_zero_denominator() {
    let per_source = |sources: usize| {
        let mut concentration = RequestConcentration::new(true);
        for index in 0..12 {
            let ip = format!("198.51.100.{}", index % sources.max(1));
            let source = if sources == 0 { None } else { Some(ip.as_str()) };
            concentration.observe(&event(Some("/path"), source, Some(0)));
        }
        float(concentration.summary().top_path.unwrap().requests_per_source_ip)
    };
    assert_eq!(per_source(3), 4.0);
    let zero = per_source(0);
    assert_eq!(zero, 0.0);
    assert!(zero.is_finite());
}

#[test]
fn discloses_tracking_caps_and_undated_observations() {
    let mut concentration = RequestConcentration::with_limits(
        true,
        ConcentrationLimits {
            max_paths: 1,
            max_source_ips: 1,
            max_focus_source_ips: 1,
            max_focus_paths: 1,
            max_source_path_pairs: 1,
            max_minute_buckets: 1,
            max_query_strings_per_path: 1,
            max_query_keys_per_path: 1,
            max_status_codes_per_entity: DEFAULT_MAX_STATUS_CODES_PER_ENTITY,
            max_source_segments: DEFAULT_MAX_SOURCE_SEGMENTS,
        },
    );
    concentration.observe(&event(Some("/one"), Some("198.51.100.1"), Some(0)));
    concentration.observe(&event(Some("/two"), Some("198.51.100.2"), None));
    let summary = concentration.summary();
    assert_eq!(summary.paths_beyond_tracking_cap, 1);
    assert_eq!(summary.source_ips_beyond_tracking_cap, 1);
    assert_eq!(
        summary.requests_per_minute.observations_without_timestamp,
        1
    );
}

#[test]
fn marks_response_bytes_unavailable_when_telemetry_lacks_them() {
    let mut concentration = RequestConcentration::new(false);
    concentration.observe(&event(Some("/resource"), Some("198.51.100.1"), Some(0)));
    assert_eq!(
        concentration.summary().top_path.unwrap().response_bytes,
        None
    );
}

#[test]
fn finds_the_most_requested_path_with_the_existing_tie_breaker() {
    let mut concentration = RequestConcentration::new(true);
    for path in ["/zebra", "/alpha", "/zebra", "/alpha"] {
        concentration.observe(&event(Some(path), Some("198.51.100.1"), Some(0)));
    }
    assert_eq!(
        most_requested_path(&concentration, "198.51.100.1"),
        Some("/alpha".to_owned())
    );
}

#[test]
fn leaves_a_source_top_path_unavailable_after_pair_tracking_is_incomplete() {
    let mut concentration = RequestConcentration::with_limits(
        true,
        ConcentrationLimits {
            max_paths: 10,
            max_source_ips: 10,
            max_focus_source_ips: 10,
            max_focus_paths: 10,
            max_source_path_pairs: 1,
            max_minute_buckets: 10,
            max_query_strings_per_path: 10,
            max_query_keys_per_path: 10,
            max_status_codes_per_entity: DEFAULT_MAX_STATUS_CODES_PER_ENTITY,
            max_source_segments: DEFAULT_MAX_SOURCE_SEGMENTS,
        },
    );
    concentration.observe(&event(Some("/first"), Some("198.51.100.1"), Some(0)));
    concentration.observe(&event(Some("/second"), Some("198.51.100.1"), Some(0)));
    assert_eq!(most_requested_path(&concentration, "198.51.100.1"), None);
    assert_eq!(
        concentration
            .summary()
            .source_path_pairs_beyond_tracking_cap,
        1
    );
}

#[test]
fn range_lookup_matches_the_previous_full_map_scan() {
    let mut concentration = RequestConcentration::new(true);
    let mut source_path_pairs: BTreeMap<(String, String), u64> = BTreeMap::new();
    for source in ["198.51.100.1", "198.51.100.2", "198.51.100.3"] {
        for path in ["/alpha", "/beta", "/beta", "/gamma", "/gamma", "/gamma"] {
            concentration.observe(&event(Some(path), Some(source), Some(0)));
            *source_path_pairs
                .entry((source.to_owned(), path.to_owned()))
                .or_insert(0) += 1;
        }
    }
    for source in ["198.51.100.1", "198.51.100.2", "198.51.100.3"] {
        let previous_full_scan = source_path_pairs
            .iter()
            .filter(|((candidate, _), _)| candidate.as_str() == source)
            .max_by(|((_, left_path), left), ((_, right_path), right)| {
                left.cmp(right).then_with(|| right_path.cmp(left_path))
            })
            .map(|((_, path), _)| path.clone());
        assert_eq!(
            most_requested_path(&concentration, source),
            previous_full_scan
        );
    }
}

#[test]
fn focuses_on_one_exact_path_and_sorts_private_sources_deterministically() {
    let mut concentration = RequestConcentration::new(true);
    concentration.focus_on_path("/target");
    for (path, ip, minute) in [
        ("/target", "198.51.100.2", 0),
        ("/target", "198.51.100.1", 0),
        ("/target", "198.51.100.1", 1),
        ("/other", "198.51.100.9", 1),
    ] {
        concentration.observe(&event(Some(path), Some(ip), Some(minute)));
    }
    let focus = concentration.private_report().focus.unwrap();
    assert_eq!(focus.uri_path, "/target");
    assert_eq!(focus.total_requests, 3);
    assert_eq!(focus.distinct_source_ips, 2);
    assert_eq!(focus.peak_requests_per_minute, Some(2));
    assert_eq!(focus.median_requests_per_minute.map(median), Some(1.5));
    assert_eq!(
        focus
            .sources
            .iter()
            .map(|source| (source.source_ip.as_str(), source.requests))
            .collect::<Vec<_>>(),
        vec![("198.51.100.1", 2), ("198.51.100.2", 1)]
    );
    let serialized = format!("{:?}", concentration.summary());
    assert!(!serialized.contains("/target"));
    assert!(!serialized.contains("198.51.100.1"));
}

#[test]
fn discloses_focus_source_ip_cap_without_adding_new_sources() {
    let mut concentration = RequestConcentration::with_limits(
        true,
        ConcentrationLimits {
            max_paths: 10,
            max_source_ips: 10,
            max_focus_source_ips: 1,
            max_focus_paths: 1,
            max_source_path_pairs: 10,
            max_minute_buckets: 10,
            max_query_strings_per_path: 10,
            max_query_keys_per_path: 10,
            max_status_codes_per_entity: DEFAULT_MAX_STATUS_CODES_PER_ENTITY,
            max_source_segments: DEFAULT_MAX_SOURCE_SEGMENTS,
        },
    );
    concentration.focus_on_path("/target");
    concentration.observe(&event(Some("/target"), Some("198.51.100.1"), Some(0)));
    concentration.observe(&event(Some("/target"), Some("198.51.100.2"), Some(0)));
    let focus = concentration.summary().focus.unwrap();
    assert_eq!(focus.distinct_source_ips, 1);
    assert_eq!(focus.source_ips_beyond_cap, 1);
}

#[test]
fn groups_retained_focus_sources_by_prefix_without_changing_individual_sources() {
    let mut concentration = RequestConcentration::new(true);
    concentration.focus_on_path("/target");
    for host in 1..=10 {
        let source = format!("198.51.100.{host}");
        for _ in 0..100 {
            concentration.observe(&event(Some("/target"), Some(&source), Some(0)));
        }
    }
    for _ in 0..50 {
        concentration.observe(&event(Some("/target"), Some("203.0.113.1"), Some(0)));
    }
    let mut focus = concentration.private_report().focus.unwrap();
    let individual_sources = format!("{:?}", focus.sources);
    add_focus_prefix_groups(&mut focus, FocusPrefixLengths::default());
    assert_eq!(focus.network_prefix_groups.len(), 2);
    let top = &focus.network_prefix_groups[0];
    assert_eq!(top.network_prefix, "198.51.100.0/24");
    assert_eq!(top.requests, 1_000);
    assert_eq!(top.distinct_source_ips, 10);
    assert_eq!(float(top.request_share), 1_000.0 / 1_050.0);
    assert_eq!(format!("{:?}", focus.sources), individual_sources);
    let sanitized = format!("{:?}", concentration.summary());
    assert!(!sanitized.contains("198.51.100.0/24"));
    assert!(!sanitized.contains("198.51.100.1"));
    assert!(!sanitized.contains("/target"));
}

#[test]
fn changing_the_ipv4_prefix_changes_focus_groups() {
    let mut concentration = RequestConcentration::new(true);
    concentration.focus_on_path("/target");
    for source in ["198.51.100.1", "198.51.101.1"] {
        concentration.observe(&event(Some("/target"), Some(source), Some(0)));
    }
    let focus = concentration.private_report().focus.unwrap();
    let mut by_24 = focus.clone();
    add_focus_prefix_groups(&mut by_24, FocusPrefixLengths { ipv4: 24, ipv6: 48 });
    let mut by_16 = focus;
    add_focus_prefix_groups(&mut by_16, FocusPrefixLengths { ipv4: 16, ipv6: 48 });
    assert_eq!(by_24.network_prefix_groups.len(), 2);
    assert_eq!(by_16.network_prefix_groups.len(), 1);
    assert_eq!(
        by_16.network_prefix_groups[0].network_prefix,
        "198.51.0.0/16"
    );
}

#[test]
fn uses_the_default_ipv6_prefix_for_focus_groups() {
    let mut concentration = RequestConcentration::new(true);
    concentration.focus_on_path("/target");
    for source in ["2001:db8:1:1::1", "2001:db8:1:ffff::2"] {
        concentration.observe(&event(Some("/target"), Some(source), Some(0)));
    }
    let mut focus = concentration.private_report().focus.unwrap();
    add_focus_prefix_groups(&mut focus, FocusPrefixLengths::default());
    assert_eq!(focus.network_prefix_groups.len(), 1);
    assert_eq!(
        focus.network_prefix_groups[0].network_prefix,
        "2001:db8:1::/48"
    );
    assert_eq!(focus.network_prefix_groups[0].distinct_source_ips, 2);
}

#[test]
fn path_is_under_matches_on_segment_boundaries() {
    assert!(path_is_under("/api", "/api"));
    assert!(path_is_under("/api/users", "/api"));
    assert!(path_is_under("/api/users", "/api/"));
    assert!(path_is_under("/anything", "/"));
    assert!(!path_is_under("/apixyz", "/api"));
    assert!(!path_is_under("/ap", "/api"));
}

#[test]
fn path_prefix_focus_lists_subpaths_and_peers() {
    let mut concentration = RequestConcentration::new(true);
    concentration.focus_on(FocusSelector::PathPrefix("/wp-admin".to_owned()));
    for (path, ip) in [
        ("/wp-admin", "198.51.100.1"),
        ("/wp-admin/index.php", "198.51.100.1"),
        ("/wp-admin/index.php", "198.51.100.2"),
        ("/wp-adminx", "198.51.100.9"), // outside the subtree
        ("/other", "198.51.100.9"),
    ] {
        concentration.observe(&event(Some(path), Some(ip), Some(0)));
    }
    let focus = concentration.private_report().focus.unwrap();
    assert_eq!(focus.focus_kind, "path-prefix");
    assert_eq!(focus.total_requests, 3);
    assert_eq!(focus.distinct_source_ips, 2);
    // Sub-paths under the prefix are listed, most-requested first.
    assert_eq!(focus.paths.len(), 2);
    assert_eq!(focus.paths[0].uri_path, "/wp-admin/index.php");
    assert_eq!(focus.paths[0].requests, 2);
}

#[test]
fn source_ip_focus_lists_requested_paths() {
    let mut concentration = RequestConcentration::new(true);
    concentration.focus_on(FocusSelector::SourceIp(peers(&["198.51.100.7"])));
    for (path, ip) in [
        ("/a", "198.51.100.7"),
        ("/a", "198.51.100.7"),
        ("/b", "198.51.100.7"),
        ("/a", "198.51.100.8"), // different peer, ignored
    ] {
        concentration.observe(&event(Some(path), Some(ip), Some(0)));
    }
    let focus = concentration.private_report().focus.unwrap();
    assert_eq!(focus.focus_kind, "source-ip");
    assert_eq!(focus.selector, "198.51.100.7");
    assert_eq!(focus.total_requests, 3);
    assert_eq!(focus.paths.len(), 2);
    assert_eq!(focus.paths[0].uri_path, "/a");
    assert_eq!(focus.paths[0].requests, 2);
}

#[test]
fn multiple_source_ip_focus_unions_paths_and_retains_per_ip_counts() {
    let mut concentration = RequestConcentration::new(true);
    concentration.focus_on(FocusSelector::SourceIp(peers(&[
        "198.51.100.2",
        "198.51.100.1",
        "198.51.100.2",
    ])));
    for (path, ip) in [
        ("/shared", "198.51.100.1"),
        ("/one", "198.51.100.1"),
        ("/shared", "198.51.100.2"),
        ("/two", "198.51.100.2"),
        ("/two", "198.51.100.2"),
        ("/ignored", "198.51.100.3"),
    ] {
        concentration.observe(&event(Some(path), Some(ip), Some(0)));
    }

    let focus = concentration.private_report().focus.unwrap();
    assert_eq!(focus.selector, "198.51.100.1, 198.51.100.2");
    assert_eq!(focus.total_requests, 5);
    assert_eq!(
        focus
            .sources
            .iter()
            .map(|source| (source.source_ip.as_str(), source.requests))
            .collect::<Vec<_>>(),
        vec![("198.51.100.2", 3), ("198.51.100.1", 2)]
    );
    assert_eq!(
        focus
            .paths
            .iter()
            .map(|path| (path.uri_path.as_str(), path.requests))
            .collect::<Vec<_>>(),
        vec![("/shared", 2), ("/two", 2), ("/one", 1)]
    );

    let sanitized = format!("{:?}", concentration.summary());
    assert!(!sanitized.contains("198.51.100.1"));
    assert!(!sanitized.contains("198.51.100.2"));
    assert!(!sanitized.contains("/shared"));
    assert!(sanitized.contains("source-ip"));
}

#[test]
fn sanitized_focus_summary_contains_no_raw_path_or_ip() {
    let mut concentration = RequestConcentration::new(true);
    concentration.focus_on(FocusSelector::PathPrefix("/secret-area".to_owned()));
    concentration.observe(&event(Some("/secret-area/x"), Some("203.0.113.5"), Some(0)));
    let sanitized = concentration.summary();
    let json = format!("{:?}", sanitized);
    assert!(!json.contains("/secret-area"));
    assert!(!json.contains("203.0.113.5"));
    assert!(json.contains("path-prefix"));
}

#[test]
fn simultaneous_rate_windows_distinguish_short_spikes_from_long_elevation() {
    let limits = ConcentrationLimits::default();
    let mut short =
        RequestConcentration::with_limits_and_rate_windows(true, limits, &[60, 3_600]);
    short.focus_on_path("/focus");
    for minute in 0..60 {
        short.observe(&event(Some("/focus"), Some("198.51.100.1"), Some(minute)));
    }
    for _ in 0..99 {
        short.observe(&event(Some("/focus"), Some("198.51.100.1"), Some(30)));
    }
    let short_summary = short.summary();
    assert_eq!(
        short_summary.request_rates[0].peak_to_median_ratio.map(times),
        Some(100.0)
    );
    assert_eq!(
        short_summary.request_rates[1].peak_to_median_ratio.map(times),
        Some(1.0)
    );
    assert_eq!(
        format!("{:?}", short_summary.focus.as_ref().unwrap().request_rates),
        format!("{:?}", short_summary.request_rates)
    );

    let mut sustained =
        RequestConcentration::with_limits_and_rate_windows(true, limits, &[60, 3_600]);
    sustained.observe(&event(Some("/focus"), Some("198.51.100.1"), Some(0)));
    for minute in 60..120 {
        sustained.observe(&event(Some("/focus"), Some("198.51.100.1"), Some(minute)));
    }
    sustained.observe(&event(Some("/focus"), Some("198.51.100.1"), Some(120)));
    let sustained_summary = sustained.summary();
    assert_eq!(
        sustained_summary.request_rates[0].peak_to_median_ratio.map(times),
        Some(1.0)
    );
    assert_eq!(
        sustained_summary.request_rates[1].peak_to_median_ratio.map(times),
        Some(60.0)
    );
}

#[test]
fn simultaneous_rate_windows_are_deterministic_and_preserve_single_minute_semantics() {
    let build = || {
        let mut concentration = RequestConcentration::with_limits_and_rate_windows(
            true,
            ConcentrationLimits::default(),
            &[3_600, 60, 600, 60],
        );
        for minute in [0, 0, 1, 10, 11, 59, 60] {
            concentration.observe(&event(
                Some("/deterministic"),
                Some("203.0.113.7"),
                Some(minute),
            ));
        }
        format!("{:?}", concentration.summary())
    };
    assert_eq!(build(), build());

    let mut one_minute = RequestConcentration::with_limits_and_rate_windows(
        true,
        ConcentrationLimits::default(),
        &[60],
    );
    for minute in [0, 0, 1] {
        one_minute.observe(&event(Some("/one"), Some("192.0.2.1"), Some(minute)));
    }
    let summary = one_minute.summary();
    let rate = &summary.request_rates[0];
    assert_eq!(
        rate.peak_requests,
        summary.requests_per_minute.peak_requests_per_minute
    );
    assert_eq!(
        rate.median_requests,
        summary.requests_per_minute.median_requests_per_minute
    );
    assert_eq!(
        rate.peak_to_median_ratio,
        summary.requests_per_minute.peak_to_median_ratio
    );
}

#[test]
fn measures_reused_query_strings_and_keys_for_one_path_and_focus() {
    let mut concentration = RequestConcentration::new(true);
    concentration.focus_on_path("/asset");
    for index in 0..10_000 {
        concentration.observe(&event_with_query(
            "/asset",
            "198.51.100.1",
            Some(format!("v={:03}", index % 1_000)),
        ));
    }

    let summary = concentration.summary();
    let top = summary.top_path.unwrap();
    assert_eq!(top.requests, 10_000);
    assert_eq!(float(top.request_share), 1.0);
    assert_eq!(top.distinct_source_ips, 1);
    assert_eq!(top.response_status_classes.client_error, 10_000);
    assert_eq!(top.response_bytes, Some(100_000));
    assert_eq!(top.requests_with_query, 10_000);
    assert_eq!(top.distinct_query_strings, 1_000);
    assert_eq!(top.distinct_query_keys, 1);
    assert_eq!(top.query_strings_beyond_tracking_cap, 0);
    let focus = summary.focus.unwrap();
    assert_eq!(focus.requests_with_query, 10_000);
    assert_eq!(focus.distinct_query_strings, 1_000);
    assert_eq!(focus.distinct_query_keys, 1);
    assert_eq!(
        concentration.private_report_with_query_keys(true).paths[0].query_keys,
        vec!["v"]
    );
}

#[test]
fn measures_unique_or_absent_queries_without_dividing_by_zero() {
    let mut unique = RequestConcentration::new(true);
    for index in 0..100 {
        unique.observe(&event_with_query(
            "/unique",
            "198.51.100.2",
            Some(format!("nonce={index}")),
        ));
    }
    let unique = unique.summary().top_path.unwrap();
    assert_eq!(unique.distinct_query_strings as u64, unique.requests);

    let mut absent = RequestConcentration::new(true);
    absent.observe(&event_with_query("/plain", "198.51.100.3", None));
    let absent = absent.summary().top_path.unwrap();
    assert_eq!(absent.requests_with_query, 0);
    assert_eq!(absent.distinct_query_strings, 0);
    assert_eq!(absent.distinct_query_keys, 0);
    assert_eq!(
        absent.requests_with_query as f64 / absent.requests as f64,
        0.0
    );

    let empty = RequestConcentration::new(true).summary();
    assert_eq!(empty.total_requests, 0);
    assert!(empty.top_path.is_none());
}

#[test]
fn query_tracking_caps_are_disclosed_without_serializing_query_values() {
    let mut concentration = RequestConcentration::with_limits(
        true,
        ConcentrationLimits {
            max_query_strings_per_path: 2,
            max_query_keys_per_path: 1,
            ..ConcentrationLimits::default()
        },
    );
    concentration.focus_on_path("/private-query");
    for query in [
        "first=secret-one",
        "second=secret-two",
        "third=secret-three",
    ] {
        concentration.observe(&event_with_query(
            "/private-query",
            "203.0.113.8",
            Some(query.to_owned()),
        ));
    }
    let summary = concentration.summary();
    let top = summary.top_path.as_ref().unwrap();
    assert_eq!(top.distinct_query_strings, 2);
    assert_eq!(top.query_strings_beyond_tracking_cap, 1);
    assert_eq!(top.distinct_query_keys, 1);
    assert_eq!(top.query_keys_beyond_tracking_cap, 2);

    let sanitized = format!("{:?}", summary);
    let private = format!("{:?}", concentration.private_report());
    let opted_in =
        format!("{:?}", concentration.private_report_with_query_keys(true));
    for value in [
        "secret-one",
        "secret-two",
        "secret-three",
        "first=",
        "second=",
    ] {
        assert!(!sanitized.contains(value));
        assert!(!private.contains(value));
        assert!(!opted_in.contains(value));
    }
    assert!(!sanitized.contains("first"));
    assert!(!private.contains("first"));
    assert!(opted_in.contains("first"));
}

#[test]
fn records_status_classes_for_each_private_observed_peer() {
    let mut concentration = RequestConcentration::new(true);
    concentration.focus_on_path("/status");
    for status in [Some(101), Some(204), Some(302), Some(404), Some(503), None] {
        let mut request = event(Some("/status"), Some("198.51.100.9"), Some(0));
        request.status = status;
        concentration.observe(&request);
    }
    let private = concentration.private_report();
    let source = &private.source_ips[0];
    assert_eq!(source.requests, 6);
    assert_eq!(source.response_status_classes.informational, 1);
    assert_eq!(source.response_status_classes.success, 1);
    assert_eq!(source.response_status_classes.redirection, 1);
    assert_eq!(source.response_status_classes.client_error, 1);
    assert_eq!(source.response_status_classes.server_error, 1);
    assert_eq!(source.response_status_classes.unavailable, 1);
    assert_eq!(
        private.focus.unwrap().sources[0].response_status_classes,
        source.response_status_classes
    );
}

#[test]
fn summarizes_corpus_response_outcomes_and_separates_499_from_other_4xx() {
    let mut concentration = RequestConcentration::new(true);
    for status in [200, 302, 404, 499, 502] {
        let mut request = event(Some("/status"), Some("198.51.100.9"), Some(0));
        request.status = Some(status);
        concentration.observe(&request);
    }
    let summary = concentration.summary();
    assert_eq!(summary.total_requests, 5);
    let top_path = summary.top_path.as_ref().unwrap();
    assert_eq!(top_path.requests, 5);
    assert_eq!(float(top_path.request_share), 1.0);
    assert_eq!(top_path.distinct_source_ips, 1);
    assert_eq!(float(top_path.requests_per_source_ip), 5.0);
    let outcome = summary.response_outcomes.unwrap();
    assert_eq!(outcome.counts.success, 1);
    assert_eq!(outcome.counts.redirection, 1);
    assert_eq!(outcome.counts.client_error, 2);
    assert_eq!(outcome.counts.ordinary_client_error(), 1);
    assert_eq!(outcome.counts.client_closed_request_499, 1);
    assert_eq!(outcome.counts.server_error, 1);
    assert_eq!(float(outcome.success_share), 0.2);
    assert_eq!(float(outcome.ordinary_client_error_share), 0.2);
    assert_eq!(float(outcome.client_closed_request_499_share), 0.2);
    assert_eq!(float(outcome.server_error_share), 0.2);
}

#[test]
fn response_windows_expose_short_zero_success_periods_without_labeling_them() {
    let mut concentration = RequestConcentration::with_limits_and_rate_windows(
        true,
        ConcentrationLimits::default(),
        &[60, 86_400],
    );
    for minute in 0..1_440 {
        for source in 0..10 {
            let mut request = event(
                Some("/status"),
                Some(&format!("198.51.100.{source}")),
                Some(minute),
            );
            request.status = Some(if (1_085..1_097).contains(&minute) {
                504
            } else {
                200
            });
            concentration.observe(&request);
        }
    }
    let windows = concentration.summary().response_outcome_windows.unwrap();
    let minute = windows
        .iter()
        .find(|item| item.bucket_width_seconds == 60)
        .unwrap();
    let day = windows
        .iter()
        .find(|item| item.bucket_width_seconds == 86_400)
        .unwrap();
    assert_eq!(minute.minimum_success_share.map(float), Some(0.0));
    assert_eq!(minute.maximum_server_error_share.map(float), Some(1.0));
    assert!(day.minimum_success_share.map(float).unwrap() > 0.99);
    assert!(day.maximum_server_error_share.map(float).unwrap() < 0.01);
}

#[test]
fn response_window_floor_excludes_sparse_buckets_and_status_can_be_unavailable() {
    let mut concentration = RequestConcentration::with_limits_and_rate_windows(
        true,
        ConcentrationLimits::default(),
        &[60],
    );
    concentration.set_response_bucket_minimum_requests(10);
    let mut sparse = event(Some("/status"), Some("198.51.100.1"), Some(0));
    sparse.status = Some(503);
    concentration.observe(&sparse);
    for source in 0..10 {
        let mut dense = event(
            Some("/status"),
            Some(&format!("203.0.113.{source}")),
            Some(1),
        );
        dense.status = Some(200);
        concentration.observe(&dense);
    }
    let window = &concentration.summary().response_outcome_windows.unwrap()[0];
    assert_eq!(window.eligible_buckets, 1);
    assert_eq!(window.buckets_below_minimum, 1);
    assert_eq!(window.minimum_success_share.map(float), Some(1.0));
    assert_eq!(window.maximum_server_error_share.map(float), Some(0.0));

    let unavailable = RequestConcentration::with_capabilities(true, false).summary();
    assert!(unavailable.response_outcomes.is_none());
    assert!(unavailable.response_outcome_windows.is_none());
}

#[test]
fn segment_medians_disclose_their_distinct_denominators() {
    let mut accumulator = RequestConcentration::new(true);
    for (ip, segments, status) in [
        ("198.51.100.1", 2, 404),
        ("198.51.100.2", 5, 404),
        ("198.51.100.3", 1, 200),
        ("198.51.100.4", 1, 200),
        ("198.51.100.5", 1, 200),
    ] {
        for segment in 0..segments {
            let mut e = event(
                Some(&format!("/private-segment-{segment}/x")),
                Some(ip),
                None,
            );
            e.status = Some(status);
            accumulator.observe(&e);
        }
    }
    let summary = accumulator.summary();
    let stats = summary.source_segment_diversity.as_ref().unwrap();
    assert_eq!(stats.median_404_segments.map(median), Some(0.0));
    assert_eq!(stats.sources_with_404_segments, Some(2));
    assert_eq!(
        stats
            .median_404_segments_among_sources_with_404_segments
            .map(median),
        Some(3.5)
    );
    assert_eq!(stats.maximum_404_segments, Some(5));
    assert_eq!(stats.retained_sources, 5);
    let serialized = format!("{:?}", summary);
    assert!(!serialized.contains("198.51.100"));
    assert!(!serialized.contains("private-segment"));
}

#[test]
fn empty_404_subset_and_missing_status_remain_distinct() {
    for status_available in [true, false] {
        let mut accumulator = RequestConcentration::with_capabilities(true, status_available);
        let mut e = event(Some("/private"), Some("198.51.100.1"), None);
        e.status = Some(200);
        accumulator.observe(&e);
        let stats = accumulator.summary().source_segment_diversity.unwrap();
        assert_eq!(stats.median_404_segments.map(median), status_available.then_some(0.0));
        assert_eq!(
            stats.sources_with_404_segments,
            status_available.then_some(0)
        );
        assert_eq!(
            stats
                .median_404_segments_among_sources_with_404_segments
                .map(median),
            None
        );
    }
}

#[test]
fn first_segments_measure_breadth_without_normalizing_or_exposing_values() {
    let mut accumulator = RequestConcentration::new(true);
    for path in ["/images/a", "/images/b", "/images/c"] {
        let mut e = event(Some(path), Some("198.51.100.1"), Some(0));
        e.status = Some(404);
        accumulator.observe(&e);
    }
    for path in ["/", "/Images/a", "/images/a", "/%69mages/a"] {
        let mut e = event(Some(path), Some("198.51.100.2"), Some(0));
        e.status = Some(404);
        accumulator.observe(&e);
    }
    let private = accumulator.private_report();
    assert_eq!(
        private.source_ips[0]
            .path_segment_diversity
            .as_ref()
            .unwrap()
            .distinct_404_segments,
        Some(4)
    );
    assert_eq!(
        private.source_ips[1]
            .path_segment_diversity
            .as_ref()
            .unwrap()
            .distinct_404_segments,
        Some(1)
    );
    let stats = private.summary.source_segment_diversity.as_ref().unwrap();
    assert_eq!(stats.maximum_404_segments, Some(4));
    assert_eq!(stats.median_404_segments.map(median), Some(2.5));
    assert_eq!(private.summary.total_requests, 7);
    assert_eq!(
        private
            .summary
            .response_outcomes
            .as_ref()
            .unwrap()
            .counts
            .client_error,
        7
    );
    assert_eq!(
        private.summary.requests_per_minute.peak_requests_per_minute,
        Some(7)
    );
    let safe = format!("{:?}", private.summary);
    for raw in ["198.51.100", "images", "Images", "%69mages"] {
        assert!(!safe.contains(raw));
    }
}

#[test]
fn first_segment_caps_and_missing_capabilities_remain_explicit() {
    let mut accumulator = RequestConcentration::with_limits(
        true,
        ConcentrationLimits {
            max_source_segments: 1,
            ..ConcentrationLimits::default()
        },
    );
    for path in [Some("/"), Some("/a"), Some("/a"), None] {
        let mut e = event(path, Some("198.51.100.1"), None);
        e.status = Some(404);
        accumulator.observe(&e);
    }
    let summary = accumulator.summary().source_segment_diversity.unwrap();
    assert_eq!(summary.maximum_404_segments, Some(1));
    assert_eq!(summary.sources_beyond_cap, 1);
    assert_eq!(summary.sources_404_beyond_cap, Some(1));
    assert_eq!(summary.observations_404_beyond_cap, Some(2));
    assert_eq!(summary.observations_without_path, 1);
    let mut unavailable = RequestConcentration::with_capabilities(true, false);
    unavailable.observe(&event(Some("/"), Some("198.51.100.1"), None));
    let private = unavailable.private_report();
    assert_eq!(
        private.source_ips[0]
            .path_segment_diversity
            .as_ref()
            .unwrap()
            .distinct_segments,
        1
    );
    assert!(private.source_ips[0]
        .path_segment_diversity
        .as_ref()
        .unwrap()
        .distinct_404_segments
        .is_none());
    assert!(private
        .summary
        .source_segment_diversity
        .unwrap()
        .maximum_404_segments
        .is_none());
}

#[test]
fn response_window_times_use_earliest_ties_and_disclose_threshold_counts() {
    let mut concentration = RequestConcentration::with_limits_and_rate_windows(
        true,
        ConcentrationLimits::default(),
        &[60],
    );
    concentration.set_response_bucket_minimum_requests(2);
    concentration
        .set_response_success_share_threshold_percent(50)
        .unwrap();
    // Deliberately unordered input: equal extrema must select the earliest UTC bucket.
    for (minute, statuses) in [
        (Some(3), [504, 504]),
        (Some(1), [502, 502]),
        (Some(2), [200, 499]),
        (Some(0), [200, 200]),
        (None, [504, 504]),
    ] {
        for status in statuses {
            let mut observation = event(Some("/private"), Some("198.51.100.1"), minute);
            observation.status = Some(status);
            concentration.observe(&observation);
        }
    }
    let window = &concentration.summary().response_outcome_windows.unwrap()[0];
    assert_eq!(
        window.minimum_success_bucket_start,
        Some(Timestamp { seconds: 60, nanos: 0 })
    );
    assert_eq!(
        window.maximum_server_error_bucket_start,
        window.minimum_success_bucket_start
    );
    assert_eq!(window.minimum_success_share.map(float), Some(0.0));
    assert_eq!(window.maximum_server_error_share.map(float), Some(1.0));
    assert_eq!(window.buckets_below_success_threshold, 2); // 50% itself is not below 50%.
    assert_eq!(window.observations_without_timestamp, 2);
    concentration
        .set_response_success_share_threshold_percent(51)
        .unwrap();
    assert_eq!(
        concentration.summary().response_outcome_windows.unwrap()[0]
            .buckets_below_success_threshold,
        3
    );
    assert!(concentration
        .set_response_success_share_threshold_percent(101)
        .is_err());
}

#[test]
fn individual_codes_sources_and_focus_prefixes_preserve_class_totals() {
    for selector in [
        FocusSelector::ExactPath("/private-status".to_owned()),
        FocusSelector::PathPrefix("/private-status".to_owned()),
        FocusSelector::SourceIp(peers(&["198.51.100.1", "198.51.100.2"])),
    ] {
        let mut concentration = RequestConcentration::new(true);
        concentration.focus_on(selector);
        for (ip, statuses) in [
            ("198.51.100.1", vec![499, 499]),
            ("198.51.100.2", vec![502, 504, 429, 401, 403, 200]),
        ] {
            for status in statuses {
                let mut observation = event(Some("/private-status"), Some(ip), Some(0));
                observation.status = Some(status);
                concentration.observe(&observation);
            }
        }
        let summary = concentration.summary();
        let codes = &summary.response_status_codes.as_ref().unwrap().counts;
        for code in [502, 504, 429, 401, 403, 200] {
            assert_eq!(codes[&code], 1);
        }
        assert_eq!(codes[&499], 2);
        let classes = &summary.response_outcomes.as_ref().unwrap().counts;
        assert_eq!(classes.server_error, codes[&502] + codes[&504]);
        assert_eq!(classes.client_error, 5); // 499 remains part of the existing 4xx count.
        assert_eq!(classes.ordinary_client_error(), 3);
        let private = concentration.private_report();
        assert_eq!(private.paths[0].summary.requests, 8);
        assert_eq!(float(private.paths[0].summary.request_share), 1.0);
        assert_eq!(private.paths[0].summary.distinct_source_ips, 2);
        assert_eq!(private.paths[0].summary.response_bytes, Some(80));
        assert_eq!(
            private.paths[0]
                .summary
                .response_status_codes
                .as_ref()
                .unwrap()
                .counts,
            *codes
        );
        let source = private
            .source_ips
            .iter()
            .find(|source| source.source_ip == "198.51.100.1")
            .unwrap();
        assert_eq!(
            float(source
                .response_outcomes
                .as_ref()
                .unwrap()
                .client_closed_request_499_share),
            1.0
        );
        assert_eq!(
            float(source
                .response_outcomes
                .as_ref()
                .unwrap()
                .server_error_share),
            0.0
        );
        let mut focus = private.focus.unwrap();
        assert_eq!(focus.response_status_codes.as_ref().unwrap().counts, *codes);
        assert!(focus.sources.iter().any(|source| source
            .response_status_codes
            .as_ref()
            .unwrap()
            .counts
            .contains_key(&504)));
        add_focus_prefix_groups(&mut focus, FocusPrefixLengths::default());
        let group = &focus.network_prefix_groups[0];
        assert_eq!(group.response_status_codes.as_ref().unwrap().counts, *codes);
        assert_eq!(
            float(group
                .response_outcomes
                .as_ref()
                .unwrap()
                .client_closed_request_499_share),
            0.25
        );
        assert_eq!(
            float(group.response_outcomes.as_ref().unwrap().success_share),
            0.125
        );
        let sanitized = format!("{:?}", summary);
        for private_value in ["/private-status", "198.51.100", "\"source_ip\":"] {
            assert!(!sanitized.contains(private_value));
        }
    }
}

#[test]
fn status_code_caps_bound_each_entity_without_dropping_class_counts() {
    let mut concentration = RequestConcentration::with_limits(
        true,
        ConcentrationLimits {
            max_status_codes_per_entity: 1,
            ..ConcentrationLimits::default()
        },
    );
    concentration.focus_on(FocusSelector::PathPrefix("/private".to_owned()));
    for status in [Some(502), Some(504), Some(504), Some(502), None] {
        let mut observation = event(Some("/private/status"), Some("198.51.100.1"), Some(0));
        observation.status = status;
        concentration.observe(&observation);
    }
    let mut private = concentration.private_report();
    add_focus_prefix_groups(
        private.focus.as_mut().unwrap(),
        FocusPrefixLengths::default(),
    );
    let focus = private.focus.as_ref().unwrap();
    for codes in [
        &private.summary.response_status_codes,
        &private.paths[0].summary.response_status_codes,
        &private.source_ips[0].response_status_codes,
        &focus.response_status_codes,
        &focus.sources[0].response_status_codes,
        &focus.paths[0].response_status_codes,
        &focus.network_prefix_groups[0].response_status_codes,
    ] {
        let codes = codes.as_ref().unwrap();
        assert_eq!(codes.maximum_codes, 1);
        assert_eq!(codes.counts, BTreeMap::from([(502, 2)]));
        assert_eq!(codes.observations_beyond_cap, 2);
    }
    let classes = &private.summary.response_outcomes.as_ref().unwrap().counts;
    assert_eq!(classes.server_error, 4);
    assert_eq!(classes.unavailable, 1);
    assert_eq!(private.summary.total_requests, 5);
}

#[test]
fn widths_are_sorted_and_used_once() {
    assert_eq!(normalize_rate_windows(&[600, 60, 0, 60]), [60, 600]);
}

#[test]
fn every_request_is_in_one_place() {
    let mut concentration = RequestConcentration::with_limits(
        true,
        ConcentrationLimits {
            max_paths: 2,
            ..ConcentrationLimits::default()
        },
    );
    for path in [Some("/a"), None, Some("/b"), Some("/c"), Some("/a"), None] {
        let request = event(path, None, Some(0));
        assert!(concentration.can_observe(&request));
        concentration.observe(&request);
    }
    let report = concentration.private_report();
    let listed: u64 = report.paths.iter().map(|path| path.summary.requests).sum();
    assert_eq!(listed, 3);
    assert_eq!(report.summary.paths_beyond_tracking_cap, 1);
    assert_eq!(report.summary.requests_without_uri_path, 2);
    assert_eq!(report.summary.requests_without_source_ip, 6);
    assert_eq!(report.summary.total_requests, 6);
}

#[test]
fn sources_that_cannot_be_counted_together_are_not_grouped() {
    let mut concentration = RequestConcentration::new(true);
    concentration.focus_on_path("/path");
    for ip in ["198.51.100.1", "198.51.101.2"] {
        concentration.observe(&event(Some("/path"), Some(ip), Some(0)));
    }
    let mut focus = concentration.private_report().focus.unwrap();
    assert!(can_group(&focus.sources));
    focus.sources[0].requests = u64::MAX;
    assert!(!can_group(&focus.sources));
}

#[test]
fn kept_counts_are_exact_and_the_rest_is_counted_beyond() {
    let mut concentration = RequestConcentration::with_limits(
        true,
        ConcentrationLimits {
            max_paths: 2,
            max_source_ips: 1,
            max_minute_buckets: 1,
            ..ConcentrationLimits::default()
        },
    );
    let requests = [
        ("/a", "198.51.100.1", 0),
        ("/b", "198.51.100.2", 1),
        ("/c", "198.51.100.1", 0),
        ("/a", "198.51.100.2", 1),
        ("/c", "198.51.100.3", 0),
        ("/a", "198.51.100.1", 2),
    ];
    for (path, source, minute) in requests {
        concentration.observe(&event(Some(path), Some(source), Some(minute)));
    }
    let report = concentration.private_report();
    let paths: Vec<(&str, u64)> = report
        .paths
        .iter()
        .map(|path| (path.uri_path.as_str(), path.summary.requests))
        .collect();
    assert_eq!(paths, [("/a", 3), ("/b", 1)]);
    assert_eq!(report.summary.paths_beyond_tracking_cap, 2);
    assert_eq!(report.source_ips.len(), 1);
    assert_eq!(report.source_ips[0].requests, 3);
    assert_eq!(report.summary.source_ips_beyond_tracking_cap, 3);
    assert_eq!(
        report.requests_per_minute_series,
        [MinuteRequestCount { minute_epoch: 0, requests: 3 }]
    );
    assert_eq!(report.minute_buckets_beyond_cap, 3);
    assert_eq!(
        most_requested_path(&concentration, "198.51.100.1"),
        Some("/a".to_owned())
    );
}

#[test]
fn groups_hold_the_requests_of_the_sources_with_an_address() {
    let mut concentration = RequestConcentration::new(true);
    concentration.focus_on_path("/path");
    for ip in ["198.51.100.1", "198.51.100.2", "198.51.101.2", "peer", "198.51.100.1"] {
        concentration.observe(&event(Some("/path"), Some(ip), Some(0)));
    }
    let mut focus = concentration.private_report().focus.unwrap();
    add_focus_prefix_groups(&mut focus, FocusPrefixLengths::default());
    let requests: u64 = focus.network_prefix_groups.iter().map(|group| group.requests).sum();
    let sources: usize = focus
        .network_prefix_groups
        .iter()
        .map(|group| group.distinct_source_ips)
        .sum();
    assert_eq!((requests, sources), (4, 3));
    let resolved: Vec<Option<ResolvedAsn>> = focus
        .sources
        .iter()
        .map(|source| {
            source.source_ip.starts_with("198.51.100.").then_some(ResolvedAsn {
                asn: 64_500,
                org: "Example".to_owned(),
            })
        })
        .collect();
    add_focus_asn_groups(&mut focus, &resolved);
    let asn = focus.asn.unwrap();
    assert_eq!(asn.groups[0].requests, 3);
    assert_eq!(asn.groups[0].requests + asn.unresolved_requests, 5);
}

#[test]
fn a_summary_does_not_depend_on_the_names_of_sources() {
    let summary = |name: &dyn Fn(usize) -> String| {
        let mut concentration = RequestConcentration::with_limits(
            true,
            ConcentrationLimits {
                max_source_ips: 3,
                ..ConcentrationLimits::default()
            },
        );
        concentration.focus_on(FocusSelector::PathPrefix("/a".to_owned()));
        for (source, path) in [
            (0, "/a/x"),
            (1, "/b"),
            (0, "/a"),
            (2, "/a/y"),
            (3, "/c"),
            (1, "/b/z"),
            (2, "/a/y"),
        ] {
            concentration.observe(&event(Some(path), Some(name(source).as_str()), Some(0)));
        }
        format!("{:?}", concentration.summary())
    };
    let plain = summary(&|source| format!("198.51.100.{source}"));
    let turned = summary(&|source| format!("203.0.113.{}", 9 - source));
    assert_eq!(plain, turned);
}
