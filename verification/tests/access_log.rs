use shenron::access_log::{
    decode_log_value, event_from_fields, parse_combined_line, parse_vhost, split_target,
    valid_percent_escapes, AccessLogFormat, AccessLogLines, AccessLogParseError, LineFields,
    MAX_COMBINED_LINE_BYTES,
};
use shenron::event::{LogSource, Timestamp};

#[test]
fn parses_combined_uri_query_and_optional_fields() {
    let event = parse_combined_line(r#"203.0.113.4 - - [24/Aug/2026:11:20:30 +0000] "GET /foo/bar?id=123&x=test HTTP/1.1" 404 123 "-" "example-agent""#, AccessLogFormat::NginxCombined).unwrap();
    assert_eq!(event.uri_path.as_deref(), Some("/foo/bar"));
    assert_eq!(event.uri_query.as_deref(), Some("id=123&x=test"));
    assert_eq!(event.user_agent.as_deref(), Some("example-agent"));
    assert_eq!(event.response_bytes, Some(123));
}

#[test]
fn separates_a_fragment_when_a_raw_request_target_contains_one() {
    let event = parse_combined_line(
        r#"203.0.113.4 - - [24/Aug/2026:11:20:30 +0000] "GET /foo?q=one#anchor HTTP/1.1" 200 1 "-" "-""#,
        AccessLogFormat::NginxCombined,
    )
    .unwrap();
    assert_eq!(event.uri_path.as_deref(), Some("/foo"));
    assert_eq!(event.uri_query.as_deref(), Some("q=one"));
    assert_eq!(event.uri_fragment.as_deref(), Some("anchor"));
}

#[test]
fn nginx_and_apache_normalize_common_fields_equivalently() {
    let line = r#"198.51.100.9 - - [24/Aug/2026:11:20:30 +0000] "GET /foo/bar?id=123 HTTP/1.1" 200 42 "https://example.test/" "example-agent""#;
    let nginx = parse_combined_line(line, AccessLogFormat::NginxCombined).unwrap();
    let apache = parse_combined_line(line, AccessLogFormat::ApacheCombined).unwrap();
    assert_eq!(nginx.timestamp, apache.timestamp);
    assert_eq!(nginx.source_ip, apache.source_ip);
    assert_eq!(nginx.method, apache.method);
    assert_eq!(nginx.uri_path, apache.uri_path);
    assert_eq!(nginx.uri_query, apache.uri_query);
    assert_eq!(nginx.user_agent, apache.user_agent);
}

#[test]
fn parses_apache_vhost_combined_and_preserves_host() {
    let event = parse_combined_line(
        r#"api.example.test:443 198.51.100.9 - - [24/Aug/2026:11:20:30 +0000] "GET /foo/bar?id=123 HTTP/1.1" 200 42 "https://example.test/" "example-agent""#,
        AccessLogFormat::ApacheVhostCombined,
    )
    .unwrap();
    assert_eq!(event.host.as_deref(), Some("api.example.test"));
    assert_eq!(event.source_ip.as_deref(), Some("198.51.100.9"));
    assert_eq!(event.uri_path.as_deref(), Some("/foo/bar"));
    assert_eq!(event.uri_query.as_deref(), Some("id=123"));
    assert_eq!(event.log_source, LogSource::ApacheVhostCombined);
}

#[test]
fn rejects_malformed_combined_lines() {
    for line in [
        "truncated",
        r#"203.0.113.4 - - [bad] "GET / HTTP/1.1" 200 1 "-" "-""#,
        r#"203.0.113.4 - - [24/Aug/2026:11:20:30 +0000] GET / HTTP/1.1 200 1 "-" "-""#,
        r#"203.0.113.4 - - [24/Aug/2026:11:20:30 +0000] "GET invalid HTTP/1.1" 200 1 "-" "-""#,
    ] {
        assert!(parse_combined_line(line, AccessLogFormat::NginxCombined).is_err());
    }
}

#[test]
fn retains_only_standard_selected_headers() {
    let event = parse_combined_line(
        r#"203.0.113.4 - - [24/Aug/2026:11:20:30 +0000] "GET / HTTP/1.1" 200 1 "https://example.test/" "example-agent""#,
        AccessLogFormat::NginxCombined,
    )
    .unwrap();
    assert_eq!(event.headers.len(), 2);
    assert!(event.headers.iter().any(|header| header.name == "Referer"));
    assert!(event
        .headers
        .iter()
        .any(|header| header.name == "User-Agent"));
}

#[test]
fn decodes_quoted_user_agent_and_rejects_malformed_percent_encoding() {
    let event = parse_combined_line(
        r#"2001:db8::1 - - [24/Aug/2026:11:20:30 +0000] "PATCH /ok%20path HTTP/1.1" 201 1 "-" "agent \"quoted\"""#,
        AccessLogFormat::ApacheCombined,
    )
    .unwrap();
    assert_eq!(event.source_ip.as_deref(), Some("2001:db8::1"));
    assert_eq!(event.user_agent.as_deref(), Some("agent \"quoted\""));
    assert!(parse_combined_line(
        r#"203.0.113.4 - - [24/Aug/2026:11:20:30 +0000] "GET /bad%zz HTTP/1.1" 200 1 "-" "-""#,
        AccessLogFormat::NginxCombined,
    )
    .is_err());
}

const LINE: &str = r#"203.0.113.4 - - [24/Aug/2026:11:20:30 +0000] "GET /a?b=c HTTP/1.1" 200 7 "-" "agent""#;

#[test]
fn reads_the_time_of_a_line_in_utc() {
    let event = parse_combined_line(
        r#"203.0.113.4 - - [24/Aug/2026:13:20:30 +0200] "GET / HTTP/1.1" 200 1 "-" "-""#,
        AccessLogFormat::NginxCombined,
    )
    .unwrap();
    let time = event.timestamp.unwrap();
    assert_eq!((time.seconds, time.nanos), (1_787_570_430, 0));
    assert_eq!(event.status, Some(200));
    assert_eq!(event.protocol.as_deref(), Some("HTTP/1.1"));
}

#[test]
fn each_error_has_its_input_and_message() {
    let format = |line: &str| {
        parse_combined_line(line, AccessLogFormat::ApacheCombined)
            .err()
            .unwrap()
    };
    assert_eq!(format("nothing"), AccessLogParseError::Format);
    assert_eq!(
        format(r#"203.0.113.4 - - [32/Aug/2026:11:20:30 +0000] "GET / HTTP/1.1" 200 1 "-" "-""#),
        AccessLogParseError::Timestamp
    );
    assert_eq!(
        format(r#"203.0.113.4 - - [24/Aug/2026:11:20:30 +0000] "GET" 200 1 "-" "-""#),
        AccessLogParseError::Request
    );
    let messages: Vec<&str> = [
        AccessLogParseError::Format,
        AccessLogParseError::Timestamp,
        AccessLogParseError::Request,
    ]
    .iter()
    .map(|error| error.message())
    .collect();
    assert_eq!(messages.len(), 3);
    assert!(messages[0] != messages[1] && messages[1] != messages[2]);
}

#[test]
fn lines_are_skipped_refused_or_read() {
    let lines = AccessLogLines::new(AccessLogFormat::NginxCombined);
    assert!(lines.next(Some("  \t\n")).is_none());
    assert!(matches!(
        lines.next(None),
        Some(Err(AccessLogParseError::Format))
    ));
    let long = format!("{LINE}{}", "x".repeat(MAX_COMBINED_LINE_BYTES));
    assert!(matches!(
        lines.next(Some(&long)),
        Some(Err(AccessLogParseError::Format))
    ));
    let event = lines.next(Some(&format!("{LINE}\r\n"))).unwrap().unwrap();
    assert_eq!(event.uri_path.as_deref(), Some("/a"));
    assert_eq!(event.raw, LINE);
}

#[test]
fn values_are_decoded_and_dashes_are_absent() {
    assert_eq!(decode_log_value("a\\\"b\\\\c").as_deref(), Some("a\"b\\c"));
    assert_eq!(decode_log_value("plain").as_deref(), Some("plain"));
    assert!(valid_percent_escapes("/a%2Fb"));
    assert!(!valid_percent_escapes("/a%2"));
    assert_eq!(
        split_target("/p?q#f"),
        ("/p".to_owned(), Some("q".to_owned()), Some("f".to_owned()))
    );
    assert_eq!(split_target("/p"), ("/p".to_owned(), None, None));
    assert_eq!(parse_vhost("host.example:443").unwrap().as_deref(), Some("host.example"));
}

#[test]
fn an_event_follows_from_the_fields_of_a_line() {
    let fields = LineFields {
        vhost: String::new(),
        source_ip: "203.0.113.4".to_owned(),
        timestamp: "24/Aug/2026:11:20:30 +0000".to_owned(),
        request: "GET /x HTTP/1.1".to_owned(),
        status: "404".to_owned(),
        response_bytes: "-".to_owned(),
        referer: "-".to_owned(),
        user_agent: "agent".to_owned(),
    };
    let time = Timestamp { seconds: 5, nanos: 6 };
    let read = |time| event_from_fields(LINE, AccessLogFormat::NginxCombined, &fields, time);
    assert!(read(None).is_err());
    let event = read(Some(time)).unwrap();
    assert_eq!(event.status, Some(404));
    assert_eq!(event.response_bytes, None);
    assert_eq!(event.referer, None);
    assert_eq!(event.headers.len(), 1);
    assert_eq!(event.timestamp.unwrap().seconds, 5);
}

#[test]
fn nginx_and_apache_give_the_same_errors() {
    for line in [
        "malformed",
        "203.0.113.4 - - [99/Aug/2026:11:20:30 +0000] \"GET / HTTP/1.1\" 200 1 \"-\" \"-\"",
        "203.0.113.4 - - [24/Aug/2026:11:20:30 +0000] \"GET /\" 200 1 \"-\" \"-\"",
    ] {
        assert_eq!(
            parse_combined_line(line, AccessLogFormat::NginxCombined).unwrap_err(),
            parse_combined_line(line, AccessLogFormat::ApacheCombined).unwrap_err()
        );
    }
}

#[test]
fn decoding_undoes_escaping() {
    for value in ["", "plain", "\"", "\\", "\\\"", "a\"b\\c\\\\\"", "\u{a0}\u{2028}"] {
        let written = value.replace('\\', "\\\\").replace('"', "\\\"");
        assert_eq!(decode_log_value(&written).as_deref(), Some(value));
    }
    for value in ["\n", "a\u{7f}", "\\\\\u{9f}"] {
        assert_eq!(decode_log_value(value), None);
    }
}
