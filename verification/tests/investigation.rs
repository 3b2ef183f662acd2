use std::io::{Read, Write};

use shenron::access_log::{parse_combined_line, AccessLogFormat};
use shenron::digest::digest;
use shenron::evaluation::PathProvenance;
use shenron::event::{LogSource, TelemetryProfile, Timestamp, WebEvent};
use shenron::investigation::{ContextOptions, ContextReport, RequestContext};
use shenron::network::Address;

/// 2026-08-24T00:00:00Z
const FROM: Timestamp = Timestamp { seconds: 1_787_529_600, nanos: 0 };
/// 2026-08-25T00:00:00Z
const TO: Timestamp = Timestamp { seconds: 1_787_616_000, nanos: 0 };

fn address(text: &str) -> Address {
    Address::parse(text).unwrap()
}

fn gzip(text: &str) -> Vec<u8> {
    let mut encoder = flate2::write::GzEncoder::new(Vec::new(), flate2::Compression::default());
    encoder.write_all(text.as_bytes()).unwrap();
    encoder.finish().unwrap()
}

/// Reads one compressed file: physical lines are counted from one, blank lines are passed over.
fn request_context(name: &str, stored: &[u8], options: &ContextOptions) -> Option<ContextReport> {
    let mut text = String::new();
    if flate2::read::MultiGzDecoder::new(stored)
        .read_to_string(&mut text)
        .is_err()
    {
        return None;
    }
    let mut context =
        RequestContext::new(TelemetryProfile::ApacheCombined, options.clone()).unwrap();
    for (index, line) in text.lines().enumerate() {
        if line.trim().is_empty() {
            continue;
        }
        assert!(context.can_observe());
        match parse_combined_line(line, AccessLogFormat::ApacheCombined) {
            Ok(event) => context.observe(name, index as u64 + 1, event),
            Err(_) => context.parse_error(),
        }
    }
    context.file_done(PathProvenance {
        path: name.to_owned(),
        byte_length: Some(stored.len() as u64),
        sha256: Some(digest(stored)),
    });
    Some(context.finish())
}

fn waf_event(ip: &str, timestamp: Option<Timestamp>) -> WebEvent {
    let mut event = parse_combined_line(
        "198.51.100.1 - - [24/Aug/2026:11:20:30 +0000] \"GET /context HTTP/1.1\" 200 12 \"-\" \"-\"",
        AccessLogFormat::ApacheCombined,
    )
    .unwrap();
    event.log_source = LogSource::AwsWaf;
    event.source_ip = Some(ip.to_owned());
    event.timestamp = timestamp;
    event
}

fn options(maximum_records: usize) -> ContextOptions {
    ContextOptions {
        source_ips: vec![address("198.51.100.1")],
        from: Some(FROM),
        to: Some(TO),
        maximum_records,
        include_query: false,
        country_recorded: false,
    }
}

#[test]
fn window_missing_time_and_peer_exclusions_reconcile_and_corrupt_gzip_is_an_error() {
    let mut chosen = options(10);
    chosen.to = Some(FROM);
    let mut context = RequestContext::new(TelemetryProfile::AwsWaf, chosen).unwrap();
    let events = [
        waf_event("198.51.100.1", Some(FROM)),
        waf_event("198.51.100.1", None),
        waf_event("198.51.100.1", Some(Timestamp { seconds: 0, nanos: 0 })),
        waf_event("198.51.100.2", Some(FROM)),
    ];
    for (index, event) in events.into_iter().enumerate() {
        context.observe("waf.jsonl", index as u64 + 1, event);
    }
    let result = context.finish();
    assert_eq!(result.counts.parseable_records, 4);
    assert_eq!(result.counts.eligible_records, 1);
    assert_eq!(result.counts.nonselected_peers, 1);
    assert_eq!(result.counts.selected_without_timestamp, 1);
    assert_eq!(result.counts.selected_outside_window, 1);
    assert!(request_context("broken.gz", b"invalid gzip", &options(10)).is_none());
}

#[test]
fn nonmatching_context_has_physical_lines_caps_and_private_only_values() {
    let line = "198.51.100.1 - - [24/Aug/2026:11:20:30 +0000] \"GET /ordinary?token=secret HTTP/1.1\" 200 12 \"-\" \"-\"\n";
    let compressed = gzip(&format!("\nbad\n{line}{line}"));
    let mut chosen = options(1);
    let result = request_context("a.gz", &compressed, &chosen).unwrap();
    assert_eq!(result.counts.parse_errors, 1);
    assert_eq!(result.counts.records_beyond_cap, 1);
    assert_eq!(result.records[0].source_reference.line_number, 3);
    assert_eq!(result.corpus[0].sha256, Some(digest(&compressed)));
    assert!(!format!("{result:?}").contains("token=secret"));
    let counts = format!("{:?}", result.counts);
    assert!(!counts.contains("198.51.100.1") && !counts.contains("/ordinary"));
    chosen.include_query = true;
    let with_queries = request_context("a.gz", &compressed, &chosen).unwrap();
    assert!(format!("{with_queries:?}").contains("token=secret"));
}

#[test]
fn concatenated_gzip_context_preserves_lines_fingerprint_and_capped_selection() {
    let line = "198.51.100.1 - - [24/Aug/2026:11:20:30 +0000] \"GET /ordinary HTTP/1.1\" 200 12 \"-\" \"-\"\n";
    let mut stored = Vec::new();
    for member in [format!("\nbad\n{line}"), line.to_owned()] {
        stored.extend(gzip(&member));
    }
    let mut chosen = options(10);
    chosen.source_ips.push(address("2001:db8::1"));
    let report = request_context("context.gz", &stored, &chosen).unwrap();
    assert_eq!(report.counts.parseable_records, 2);
    assert_eq!(report.counts.parse_errors, 1);
    assert_eq!(
        report
            .records
            .iter()
            .map(|r| r.source_reference.line_number)
            .collect::<Vec<_>>(),
        [3, 4]
    );
    assert_eq!(report.corpus[0].byte_length, Some(stored.len() as u64));
    assert_eq!(report.corpus[0].sha256, Some(digest(&stored)));
    chosen.maximum_records = 1;
    let capped = request_context("context.gz", &stored, &chosen).unwrap();
    assert_eq!(capped.counts.records_beyond_cap, 1);
    assert_eq!(capped.selected_source_ips, chosen.source_ips);
}

#[test]
fn unusable_selections_are_refused() {
    let message = "context requires ordered UTC bounds when both are specified, selected peers, and a positive finite record cap";
    let mut backwards = options(1);
    backwards.from = Some(TO);
    backwards.to = Some(FROM);
    let mut nobody = options(1);
    nobody.source_ips.clear();
    for refused in [backwards, nobody, options(0)] {
        match RequestContext::new(TelemetryProfile::AwsWaf, refused) {
            Ok(_) => panic!("accepted"),
            Err(error) => assert_eq!(error.message(), message),
        }
    }
}

#[test]
fn records_are_sorted_by_time_and_place() {
    let mut context = RequestContext::new(TelemetryProfile::AwsWaf, options(10)).unwrap();
    let late = Timestamp { seconds: FROM.seconds + 1, nanos: 0 };
    context.observe("b", 9, waf_event("198.51.100.1", Some(late)));
    context.observe("b", 2, waf_event("198.51.100.1", Some(FROM)));
    context.observe("b", 1, waf_event("198.51.100.1", Some(FROM)));
    context.observe("a", 7, waf_event("198.51.100.1", Some(FROM)));
    let report = context.finish();
    let places: Vec<(&str, u64)> = report
        .records
        .iter()
        .map(|record| {
            let place = &record.source_reference;
            (place.input_file.as_str(), place.line_number)
        })
        .collect();
    assert_eq!(places, [("a", 7), ("b", 1), ("b", 2), ("b", 9)]);
    assert_eq!(report.counts.earliest_retained, Some(FROM));
    assert_eq!(report.counts.latest_retained, Some(late));
    assert_eq!(report.counts.retained_records, 4);
    assert_eq!(
        report.counts.parseable_records,
        report.counts.nonselected_peers
            + report.counts.selected_without_timestamp
            + report.counts.selected_outside_window
            + report.counts.eligible_records
    );
}

#[test]
fn records_are_left_out_only_where_the_cap_is_reached() {
    for cap in [2, 3, 4] {
        let mut context = RequestContext::new(TelemetryProfile::AwsWaf, options(cap)).unwrap();
        for line in 1..4 {
            context.observe("a", line, waf_event("198.51.100.1", Some(FROM)));
        }
        let counts = context.finish().counts;
        assert_eq!(counts.retained_records, cap.min(3));
        assert_eq!(counts.records_beyond_cap > 0, cap < 3);
    }
}

#[test]
fn reports_hold_only_what_was_asked_for() {
    let mut chosen = options(10);
    chosen.to = Some(FROM);
    let after = Timestamp { seconds: FROM.seconds, nanos: 1 };
    for include_query in [false, true] {
        chosen.include_query = include_query;
        let mut context =
            RequestContext::new(TelemetryProfile::ApacheCombined, chosen.clone()).unwrap();
        for (ip, time) in [
            ("198.51.100.1", FROM),
            ("198.51.100.2", FROM),
            ("198.51.100.1", after),
            ("::ffff:198.51.100.1", FROM),
        ] {
            let mut event = waf_event(ip, Some(time));
            event.uri_query = Some("token=secret".to_owned());
            event.referer = Some("https://example.test/?token=secret".to_owned());
            event.host = Some("host.test".to_owned());
            event.country = Some("ZZ".to_owned());
            event.ja4 = Some("fingerprint".to_owned());
            event.waf_labels = vec!["label".to_owned()];
            context.observe("a", 1, event);
        }
        let report = context.finish();
        assert_eq!(report.records.len(), 1);
        let record = &report.records[0];
        assert_eq!((record.source_ip.as_str(), record.timestamp), ("198.51.100.1", FROM));
        assert_eq!(record.uri_query.is_some(), include_query);
        assert_eq!(record.referer.is_some(), include_query);
        assert!(!report.field_availability.host && record.host.is_none());
        assert!(!report.field_availability.ja4 && record.ja4.is_none());
        assert!(record.country.is_none() && record.waf_labels.is_empty());
    }
}
