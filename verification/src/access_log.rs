//! nginx and Apache Combined Log Format.
//!
//! Standard nginx and Apache formats have the same field shape. Apache's vhost-prefixed
//! Combined Log Format is a source of its own, because it supplies a server host that standard
//! Combined logs do not contain.

use crate::event::{HttpHeader, LogSource, Timestamp, WebEvent};
use crate::text::{
    chars_of, find_char, find_last_char, first_of, last_of, opt_text, parse_unsigned, same_text,
    split_whitespace, starts_with, starts_with_text, text_between, texts, trim, trim_end, trim_end_text,
    trim_text, unsigned_value, words,
};
use vstd::prelude::*;
use vstd::string::*;
use vstd::utf8::encode_utf8;

verus! {

broadcast use vstd::string::group_string_axioms;

/// Longer records are rejected, so that a corrupt log cannot dominate a scan.
pub const MAX_COMBINED_LINE_BYTES: usize = 65536;

/// The shape of a Combined Log Format line. Its groups are the source address, the timestamp,
/// the request, the status, the response size, the referer and the user agent.
pub const COMBINED_PATTERN: &'static str =
    r#"^(?P<source_ip>\S+) \S+ \S+ \[(?P<timestamp>[^\]]+)\] "(?P<request>(?:\\.|[^"])*)" (?P<status>\d{3}|-) (?P<response_bytes>\d+|-) "(?P<referer>(?:\\.|[^"])*)" "(?P<user_agent>(?:\\.|[^"])*)"$"#;

/// The same shape after a group for the virtual host.
pub const VHOST_COMBINED_PATTERN: &'static str =
    r#"^(?P<vhost>\S+) (?P<source_ip>\S+) \S+ \S+ \[(?P<timestamp>[^\]]+)\] "(?P<request>(?:\\.|[^"])*)" (?P<status>\d{3}|-) (?P<response_bytes>\d+|-) "(?P<referer>(?:\\.|[^"])*)" "(?P<user_agent>(?:\\.|[^"])*)"$"#;

/// How a timestamp of an access log is written.
pub const LOG_TIME_FORMAT: &'static str = "%d/%b/%Y:%H:%M:%S %z";

#[derive(Clone, Copy, Debug, PartialEq, Eq, Structural)]
pub enum AccessLogFormat {
    NginxCombined,
    ApacheCombined,
    ApacheVhostCombined,
}

#[derive(Clone, Copy, Debug, PartialEq, Eq, Structural)]
pub enum AccessLogParseError {
    /// The line is not in standard combined access-log format.
    Format,
    /// The timestamp is not valid.
    Timestamp,
    /// The request line is not valid.
    Request,
}

impl AccessLogParseError {
    pub fn message(&self) -> (r: &'static str)
        ensures
            r@ == match self {
                AccessLogParseError::Format => "line is not standard combined access-log format"@,
                AccessLogParseError::Timestamp => "invalid access-log timestamp"@,
                AccessLogParseError::Request => "invalid access-log request line"@,
            },
    {
        match self {
            AccessLogParseError::Format => "line is not standard combined access-log format",
            AccessLogParseError::Timestamp => "invalid access-log timestamp",
            AccessLogParseError::Request => "invalid access-log request line",
        }
    }
}

/// The texts of the groups of a match.
pub open spec fn group_texts(groups: Seq<Option<String>>) -> Seq<Option<Seq<char>>> {
    groups.map_values(|g: Option<String>| opt_text(g))
}

/// What the groups of a pattern capture in a text, the whole match first; none where the text
/// does not match.
pub uninterp spec fn captured_groups(pattern: Seq<char>, text: Seq<char>) -> Option<
    Seq<Option<Seq<char>>>,
>;

/// Matches a text with `regex::Regex::captures`. What the groups capture is a function of the
/// pattern and the text. A pattern that is not a regular expression matches nothing.
#[verifier::external_body]
pub(crate) fn capture_groups(pattern: &str, text: &str) -> (r: Option<Vec<Option<String>>>)
    ensures
        match r {
            Some(groups) => captured_groups(pattern@, text@) == Some(group_texts(groups@)),
            None => captured_groups(pattern@, text@) is None,
        },
{
    let expression = regex::Regex::new(pattern).ok()?;
    let found = expression.captures(text)?;
    Some(found.iter().map(|group| group.map(|part| part.as_str().to_owned())).collect())
}

/// The point in time that a text stands for in a `strftime` format, as seconds and nanoseconds.
pub uninterp spec fn instant_from_text(text: Seq<char>, format: Seq<char>) -> Option<(i64, u32)>;

/// Reads a time with `chrono::DateTime::parse_from_str`. The result is a function of the text
/// and the format.
#[verifier::external_body]
pub(crate) fn read_instant(text: &str, format: &str) -> (r: Option<(i64, u32)>)
    ensures
        r == instant_from_text(text@, format@),
{
    let instant = chrono::DateTime::parse_from_str(text, format).ok()?;
    Some((instant.timestamp(), instant.timestamp_subsec_nanos()))
}

/// The point in time that a text stands for in an access log.
pub open spec fn log_time(text: Seq<char>) -> Option<Timestamp> {
    match instant_from_text(text, LOG_TIME_FORMAT@) {
        Some(p) => Some(Timestamp { seconds: p.0, nanos: p.1 }),
        None => None,
    }
}

/// The fields of a line, as the line holds them.
#[derive(Clone, Debug)]
pub struct LineFields {
    pub vhost: String,
    pub source_ip: String,
    pub timestamp: String,
    pub request: String,
    pub status: String,
    pub response_bytes: String,
    pub referer: String,
    pub user_agent: String,
}

/// The texts of the fields of a line.
pub struct FieldTexts {
    pub vhost: Seq<char>,
    pub source_ip: Seq<char>,
    pub timestamp: Seq<char>,
    pub request: Seq<char>,
    pub status: Seq<char>,
    pub response_bytes: Seq<char>,
    pub referer: Seq<char>,
    pub user_agent: Seq<char>,
}

impl View for LineFields {
    type V = FieldTexts;

    open spec fn view(&self) -> FieldTexts {
        FieldTexts {
            vhost: self.vhost@,
            source_ip: self.source_ip@,
            timestamp: self.timestamp@,
            request: self.request@,
            status: self.status@,
            response_bytes: self.response_bytes@,
            referer: self.referer@,
            user_agent: self.user_agent@,
        }
    }
}

pub open spec fn line_pattern(format: AccessLogFormat) -> Seq<char> {
    match format {
        AccessLogFormat::ApacheVhostCombined => VHOST_COMBINED_PATTERN@,
        _ => COMBINED_PATTERN@,
    }
}

pub open spec fn source_of(format: AccessLogFormat) -> LogSource {
    match format {
        AccessLogFormat::NginxCombined => LogSource::NginxCombined,
        AccessLogFormat::ApacheCombined => LogSource::ApacheCombined,
        AccessLogFormat::ApacheVhostCombined => LogSource::ApacheVhostCombined,
    }
}

/// The number of groups before the source address.
pub open spec fn group_offset(format: AccessLogFormat) -> int {
    if format is ApacheVhostCombined {
        2
    } else {
        1
    }
}

/// The fields that the groups of a match hold: none unless every group took part in the match.
pub open spec fn fields_of(groups: Seq<Option<Seq<char>>>, format: AccessLogFormat) -> Option<
    FieldTexts,
> {
    let at = group_offset(format);
    if groups.len() == at + 7 && (forall|i: int|
        1 <= i < groups.len() ==> (#[trigger] groups[i]) is Some) {
        Some(
            FieldTexts {
                vhost: if format is ApacheVhostCombined {
                    groups[1].unwrap()
                } else {
                    seq![]
                },
                source_ip: groups[at].unwrap(),
                timestamp: groups[at + 1].unwrap(),
                request: groups[at + 2].unwrap(),
                status: groups[at + 3].unwrap(),
                response_bytes: groups[at + 4].unwrap(),
                referer: groups[at + 5].unwrap(),
                user_agent: groups[at + 6].unwrap(),
            },
        )
    } else {
        None
    }
}

pub open spec fn is_control(c: char) -> bool {
    c <= '\u{1f}' || ('\u{7f}' <= c && c <= '\u{9f}')
}

fn is_control_char(c: char) -> (r: bool)
    ensures
        r == is_control(c),
{
    c <= '\u{1f}' || ('\u{7f}' <= c && c <= '\u{9f}')
}

/// What an escaped character stands for: a quote and a backslash for themselves, another
/// character for the backslash and itself.
pub open spec fn unescaped(c: char) -> Seq<char> {
    if c == '"' || c == '\\' {
        seq![c]
    } else {
        seq!['\\', c]
    }
}

/// The value behind the escapes of a quoted field: none where a control character stands
/// outside an escape or the field ends within one.
pub open spec fn decoded(s: Seq<char>) -> Option<Seq<char>>
    decreases s.len(),
{
    if s.len() == 0 {
        Some(seq![])
    } else if is_control(s[0]) {
        None
    } else if s[0] == '\\' {
        if s.len() == 1 {
            None
        } else {
            match decoded(s.skip(2)) {
                Some(rest) => Some(unescaped(s[1]) + rest),
                None => None,
            }
        }
    } else {
        match decoded(s.skip(1)) {
            Some(rest) => Some(seq![s[0]] + rest),
            None => None,
        }
    }
}

pub fn decode_log_value(value: &str) -> (r: Option<String>)
    ensures
        opt_text(r) == decoded(value@),
{
    let chars = chars_of(value);
    let mut r = String::new();
    let mut i: usize = 0;
    assert(value@.skip(0) =~= value@);
    proof {
        if let Some(rest) = decoded(value@) {
            assert(r@ + rest =~= rest);
        }
    }
    while i < chars.len()
        invariant
            chars@ == value@,
            i <= chars@.len(),
            decoded(value@) == match decoded(value@.skip(i as int)) {
                Some(rest) => Some(r@ + rest),
                None => None,
            },
        decreases chars.len() - i,
    {
        let ghost tail = value@.skip(i as int);
        let ghost done = r@;
        let c = chars[i];
        assert(tail[0] == c);
        if is_control_char(c) {
            return None;
        }
        if c == '\\' {
            if chars.len() - i < 2 {
                return None;
            }
            let next = chars[i + 1];
            assert(tail[1] == next);
            if next == '"' || next == '\\' {
                r.push(next);
            } else {
                r.push('\\');
                r.push(next);
            }
            proof {
                assert(tail.skip(2) =~= value@.skip(i + 2));
                assert(r@ =~= done + unescaped(next));
                if let Some(rest) = decoded(value@.skip(i + 2)) {
                    assert(done + (unescaped(next) + rest) =~= r@ + rest);
                }
            }
            i = i + 2;
        } else {
            r.push(c);
            proof {
                assert(tail.skip(1) =~= value@.skip(i + 1));
                if let Some(rest) = decoded(value@.skip(i + 1)) {
                    assert(done + (seq![c] + rest) =~= r@ + rest);
                }
            }
            i = i + 1;
        }
    }
    assert(value@.skip(i as int) =~= Seq::<char>::empty());
    assert(r@ + Seq::<char>::empty() =~= r@);
    Some(r)
}

pub open spec fn is_hex_digit(c: char) -> bool {
    ('0' <= c && c <= '9') || ('a' <= c && c <= 'f') || ('A' <= c && c <= 'F')
}

pub fn is_hex_digit_char(c: char) -> (r: bool)
    ensures
        r == is_hex_digit(c),
{
    ('0' <= c && c <= '9') || ('a' <= c && c <= 'f') || ('A' <= c && c <= 'F')
}

/// Every percent sign is followed by two hexadecimal digits.
pub open spec fn escapes_are_valid(s: Seq<char>) -> bool {
    forall|i: int|
        0 <= i < s.len() && #[trigger] s[i] == '%' ==> i + 2 < s.len() && is_hex_digit(s[i + 1])
            && is_hex_digit(s[i + 2])
}

pub fn valid_percent_escapes(value: &str) -> (r: bool)
    ensures
        r == escapes_are_valid(value@),
{
    let chars = chars_of(value);
    let mut i: usize = 0;
    while i < chars.len()
        invariant
            chars@ == value@,
            i <= chars@.len(),
            forall|j: int|
                0 <= j < i && #[trigger] value@[j] == '%' ==> j + 2 < value@.len() && is_hex_digit(
                    value@[j + 1],
                ) && is_hex_digit(value@[j + 2]),
        decreases chars.len() - i,
    {
        if chars[i] == '%' {
            if chars.len() - i < 3 || !is_hex_digit_char(chars[i + 1]) || !is_hex_digit_char(
                chars[i + 2],
            ) {
                assert(value@[i as int] == '%');
                return false;
            }
        }
        i = i + 1;
    }
    true
}

/// The parts of a request target: the path, the query and the fragment. An empty query or
/// fragment counts as absent.
pub open spec fn target_parts(s: Seq<char>) -> (Seq<char>, Option<Seq<char>>, Option<Seq<char>>) {
    let hash = first_of(s, '#');
    let target = s.take(hash);
    let question = first_of(target, '?');
    (
        target.take(question),
        if question + 1 < target.len() {
            Some(target.skip(question + 1))
        } else {
            None
        },
        if hash + 1 < s.len() {
            Some(s.skip(hash + 1))
        } else {
            None
        },
    )
}

pub fn split_target(target: &str) -> (r: (String, Option<String>, Option<String>))
    ensures
        r.0@ == target_parts(target@).0,
        opt_text(r.1) == target_parts(target@).1,
        opt_text(r.2) == target_parts(target@).2,
{
    let chars = chars_of(target);
    assert(chars@.skip(0) =~= chars@);
    let hash = find_char(&chars, '#', 0);
    let fragment = if chars.len() - hash > 1 {
        let text = text_between(&chars, hash + 1, chars.len());
        assert(text@ =~= target@.skip(hash + 1));
        Some(text)
    } else {
        None
    };
    let before = chars_of(text_between(&chars, 0, hash).as_str());
    assert(before@ =~= target@.take(hash as int));
    assert(before@.skip(0) =~= before@);
    let question = find_char(&before, '?', 0);
    let query = if before.len() - question > 1 {
        let text = text_between(&before, question + 1, before.len());
        assert(text@ =~= before@.skip(question + 1));
        Some(text)
    } else {
        None
    };
    let path = text_between(&before, 0, question);
    assert(path@ =~= before@.take(question as int));
    (path, query, fragment)
}

/// The host of a `host:port` pair: what stands before the last colon, provided that it is not
/// empty and that a port number follows.
pub open spec fn vhost_host(value: Seq<char>) -> Option<Seq<char>> {
    let colon = last_of(value, ':');
    if colon > 0 && unsigned_value(value.skip(colon + 1), 65535) is Some {
        Some(value.take(colon))
    } else {
        None
    }
}

pub fn parse_vhost(value: &str) -> (r: Result<Option<String>, AccessLogParseError>)
    ensures
        match r {
            Ok(host) => host is Some && opt_text(host) == vhost_host(value@),
            Err(e) => e is Format && vhost_host(value@) is None,
        },
{
    let chars = chars_of(value);
    let after = find_last_char(&chars, ':');
    if after < 2 {
        return Err(AccessLogParseError::Format);
    }
    let port = text_between(&chars, after, chars.len());
    assert(port@ =~= value@.skip(after as int));
    if parse_unsigned(port.as_str(), 65535).is_none() {
        return Err(AccessLogParseError::Format);
    }
    let host = text_between(&chars, 0, after - 1);
    assert(host@ =~= value@.take(after - 1));
    Ok(Some(host))
}

/// The value of a quoted field: none for a single hyphen.
pub open spec fn quoted_value(s: Seq<char>) -> Option<Seq<char>> {
    if s == "-"@ {
        None
    } else {
        decoded(s)
    }
}

fn decode_optional(value: &str) -> (r: Option<String>)
    ensures
        opt_text(r) == quoted_value(value@),
{
    if same_text(value, "-") {
        None
    } else {
        decode_log_value(value)
    }
}

/// A request line is a method, a target that starts with a slash and has valid escapes, and a
/// protocol, with white space between them.
pub open spec fn request_is_valid(request: Seq<char>) -> bool {
    let w = words(request);
    &&& w.len() == 3
    &&& starts_with_text(w[2], "HTTP/"@)
    &&& starts_with_text(w[1], "/"@)
    &&& escapes_are_valid(w[1])
}

/// The error that the fields of a line give, where they give one.
pub open spec fn field_error(
    format: AccessLogFormat,
    fields: FieldTexts,
    time: Option<Timestamp>,
) -> Option<AccessLogParseError> {
    if time is None {
        Some(AccessLogParseError::Timestamp)
    } else if decoded(fields.request) is None {
        Some(AccessLogParseError::Format)
    } else if !request_is_valid(decoded(fields.request).unwrap()) {
        Some(AccessLogParseError::Request)
    } else if format is ApacheVhostCombined && vhost_host(fields.vhost) is None {
        Some(AccessLogParseError::Format)
    } else {
        None
    }
}

/// The headers that a combined line holds: the referer and the user agent where present.
pub open spec fn selected_headers(
    referer: Option<Seq<char>>,
    user_agent: Option<Seq<char>>,
) -> Seq<(Seq<char>, Seq<char>)> {
    let first = match referer {
        Some(v) => seq![("Referer"@, v)],
        None => seq![],
    };
    match user_agent {
        Some(v) => first.push(("User-Agent"@, v)),
        None => first,
    }
}

pub open spec fn header_texts(headers: Seq<HttpHeader>) -> Seq<(Seq<char>, Seq<char>)> {
    headers.map_values(|h: HttpHeader| (h.name@, h.value@))
}

pub open spec fn bounded_number(s: Seq<char>, max: nat) -> Option<int> {
    match unsigned_value(s, max) {
        Some(n) => Some(n as int),
        None => None,
    }
}

/// Whether an event holds exactly what the fields of a line say.
pub open spec fn is_event_of(
    event: WebEvent,
    raw: Seq<char>,
    format: AccessLogFormat,
    fields: FieldTexts,
    time: Option<Timestamp>,
) -> bool {
    let w = words(decoded(fields.request).unwrap());
    let parts = target_parts(w[1]);
    let referer = quoted_value(fields.referer);
    let user_agent = quoted_value(fields.user_agent);
    &&& event.timestamp == time
    &&& opt_text(event.source_ip) == Some(fields.source_ip)
    &&& event.client_ip is None
    &&& event.source_port is None
    &&& event.country is None
    &&& opt_text(event.host) == (if format is ApacheVhostCombined {
        vhost_host(fields.vhost)
    } else {
        None
    })
    &&& opt_text(event.method) == Some(w[0])
    &&& opt_text(event.uri) == Some(w[1])
    &&& opt_text(event.uri_path) == Some(parts.0)
    &&& opt_text(event.uri_query) == parts.1
    &&& opt_text(event.uri_fragment) == parts.2
    &&& header_texts(event.headers@) == selected_headers(referer, user_agent)
    &&& opt_text(event.user_agent) == user_agent
    &&& opt_text(event.referer) == referer
    &&& (match event.status {
        Some(n) => Some(n as int),
        None => None,
    }) == bounded_number(fields.status, u16::MAX as nat)
    &&& (match event.response_bytes {
        Some(n) => Some(n as int),
        None => None,
    }) == bounded_number(fields.response_bytes, u64::MAX as nat)
    &&& opt_text(event.protocol) == Some(w[2])
    &&& event.request_id is None
    &&& event.ja3 is None
    &&& event.ja4 is None
    &&& event.tls_protocol is None
    &&& event.tls_cipher is None
    &&& event.waf_action is None
    &&& event.waf_rule_id is None
    &&& event.waf_rule_type is None
    &&& event.waf_labels@.len() == 0
    &&& event.waf_non_terminating_rule_ids@.len() == 0
    &&& event.log_source == source_of(format)
    &&& event.raw@ == raw
}

/// What the fields of a line and the reading of its timestamp give.
pub open spec fn is_field_result(
    r: Result<WebEvent, AccessLogParseError>,
    raw: Seq<char>,
    format: AccessLogFormat,
    fields: FieldTexts,
    time: Option<Timestamp>,
) -> bool {
    match r {
        Ok(event) => field_error(format, fields, time) is None && is_event_of(
            event,
            raw,
            format,
            fields,
            time,
        ),
        Err(e) => field_error(format, fields, time) == Some(e),
    }
}

/// What a line gives: an error of format where its shape does not match, else what its fields
/// give.
pub open spec fn is_line_result(
    r: Result<WebEvent, AccessLogParseError>,
    raw: Seq<char>,
    format: AccessLogFormat,
) -> bool {
    let groups = captured_groups(line_pattern(format), raw);
    if groups is None || fields_of(groups.unwrap(), format) is None {
        r == Err::<WebEvent, _>(AccessLogParseError::Format)
    } else {
        let fields = fields_of(groups.unwrap(), format).unwrap();
        is_field_result(r, raw, format, fields, log_time(fields.timestamp))
    }
}

pub fn parse_combined_line(raw: &str, format: AccessLogFormat) -> (r: Result<
    WebEvent,
    AccessLogParseError,
>)
    ensures
        is_line_result(r, raw@, format),
{
    let pattern = match format {
        AccessLogFormat::ApacheVhostCombined => VHOST_COMBINED_PATTERN,
        _ => COMBINED_PATTERN,
    };
    let groups = match capture_groups(pattern, raw) {
        Some(groups) => groups,
        None => {
            return Err(AccessLogParseError::Format);
        },
    };
    match named_fields(&groups, format) {
        Some(fields) => {
            let time = match read_instant(fields.timestamp.as_str(), LOG_TIME_FORMAT) {
                Some(p) => Some(Timestamp { seconds: p.0, nanos: p.1 }),
                None => None,
            };
            event_from_fields(raw, format, &fields, time)
        },
        None => Err(AccessLogParseError::Format),
    }
}

/// Gives the groups of a match their names.
pub fn named_fields(groups: &Vec<Option<String>>, format: AccessLogFormat) -> (r: Option<
    LineFields,
>)
    ensures
        match r {
            Some(fields) => fields_of(group_texts(groups@), format) == Some(fields@),
            None => fields_of(group_texts(groups@), format) is None,
        },
{
    let at: usize = match format {
        AccessLogFormat::ApacheVhostCombined => 2,
        _ => 1,
    };
    let ghost g = group_texts(groups@);
    if groups.len() != at + 7 {
        return None;
    }
    let mut found: Vec<String> = Vec::new();
    let mut i: usize = 1;
    while i < groups.len()
        invariant
            1 <= i <= groups@.len(),
            g == group_texts(groups@),
            found@.len() == i - 1,
            forall|j: int| 1 <= j < i ==> #[trigger] g[j] == Some(found@[j - 1]@),
        decreases groups.len() - i,
    {
        match &groups[i] {
            Some(text) => {
                assert(g[i as int] == Some(text@));
                found.push(text.clone());
            },
            None => {
                assert(g[i as int] is None);
                return None;
            },
        }
        i = i + 1;
    }
    let vhost = match format {
        AccessLogFormat::ApacheVhostCombined => found[0].clone(),
        _ => String::new(),
    };
    proof {
        assert(g[1] is Some);
        assert(g[at as int] is Some);
        assert(g[at + 1] is Some);
        assert(g[at + 2] is Some);
        assert(g[at + 3] is Some);
        assert(g[at + 4] is Some);
        assert(g[at + 5] is Some);
        assert(g[at + 6] is Some);
    }
    Some(
        LineFields {
            vhost,
            source_ip: found[at - 1].clone(),
            timestamp: found[at].clone(),
            request: found[at + 1].clone(),
            status: found[at + 2].clone(),
            response_bytes: found[at + 3].clone(),
            referer: found[at + 4].clone(),
            user_agent: found[at + 5].clone(),
        },
    )
}

fn copied(value: &Option<String>) -> (r: Option<String>)
    ensures
        r == *value,
{
    match value {
        Some(v) => Some(v.clone()),
        None => None,
    }
}

/// Builds the event from the fields of a line and the point in time that its timestamp was
/// read as.
pub fn event_from_fields(
    raw: &str,
    format: AccessLogFormat,
    fields: &LineFields,
    time: Option<Timestamp>,
) -> (r: Result<WebEvent, AccessLogParseError>)
    ensures
        is_field_result(r, raw@, format, fields@, time),
{
    if time.is_none() {
        return Err(AccessLogParseError::Timestamp);
    }
    let request = match decode_log_value(fields.request.as_str()) {
        Some(request) => request,
        None => {
            return Err(AccessLogParseError::Format);
        },
    };
    let parts = split_whitespace(request.as_str());
    assert(parts@.len() == words(request@).len());
    if parts.len() != 3 {
        return Err(AccessLogParseError::Request);
    }
    assert(words(request@)[0] == parts@[0]@);
    assert(words(request@)[1] == parts@[1]@);
    assert(words(request@)[2] == parts@[2]@);
    let method = parts[0].clone();
    let target = parts[1].clone();
    let protocol = parts[2].clone();
    if !starts_with(protocol.as_str(), "HTTP/") || !starts_with(target.as_str(), "/")
        || !valid_percent_escapes(target.as_str()) {
        return Err(AccessLogParseError::Request);
    }
    let (uri_path, uri_query, uri_fragment) = split_target(target.as_str());
    let status = match parse_unsigned(fields.status.as_str(), 65535) {
        Some(n) => Some(n as u16),
        None => None,
    };
    let response_bytes = parse_unsigned(fields.response_bytes.as_str(), u64::MAX);
    let referer = decode_optional(fields.referer.as_str());
    let user_agent = decode_optional(fields.user_agent.as_str());
    let host = match format {
        AccessLogFormat::ApacheVhostCombined => match parse_vhost(fields.vhost.as_str()) {
            Ok(host) => host,
            Err(e) => {
                return Err(e);
            },
        },
        _ => None,
    };
    let mut headers: Vec<HttpHeader> = Vec::new();
    if let Some(value) = &referer {
        headers.push(HttpHeader { name: "Referer".to_owned(), value: value.clone() });
    }
    if let Some(value) = &user_agent {
        headers.push(HttpHeader { name: "User-Agent".to_owned(), value: value.clone() });
    }
    assert(header_texts(headers@) =~= selected_headers(opt_text(referer), opt_text(user_agent)));
    let log_source = match format {
        AccessLogFormat::NginxCombined => LogSource::NginxCombined,
        AccessLogFormat::ApacheCombined => LogSource::ApacheCombined,
        AccessLogFormat::ApacheVhostCombined => LogSource::ApacheVhostCombined,
    };
    Ok(
        WebEvent {
            timestamp: time,
            source_ip: Some(fields.source_ip.clone()),
            client_ip: None,
            source_port: None,
            country: None,
            host,
            method: Some(method),
            uri: Some(target),
            uri_path: Some(uri_path),
            uri_query,
            uri_fragment,
            headers,
            user_agent,
            referer,
            status,
            response_bytes,
            protocol: Some(protocol),
            request_id: None,
            ja3: None,
            ja4: None,
            tls_protocol: None,
            tls_cipher: None,
            waf_action: None,
            waf_rule_id: None,
            waf_rule_type: None,
            waf_labels: Vec::new(),
            waf_non_terminating_rule_ids: Vec::new(),
            log_source,
            raw: raw.to_owned(),
        },
    )
}

/// Turns the lines of an access log into records, one at a time.
#[derive(Clone, Copy, Debug)]
pub struct AccessLogLines {
    pub format: AccessLogFormat,
}

impl AccessLogLines {
    pub fn new(format: AccessLogFormat) -> (r: Self)
        ensures
            r.format == format,
    {
        AccessLogLines { format }
    }

    /// The record of one line, where `None` stands for a line that could not be read. A blank
    /// line gives no record; one that is unreadable or too long gives an error of format.
    pub fn next(&self, line: Option<&str>) -> (r: Option<Result<WebEvent, AccessLogParseError>>)
        ensures
            match line {
                None => r == Some(Err::<WebEvent, _>(AccessLogParseError::Format)),
                Some(l) => if trim_text(l@).len() == 0 {
                    r is None
                } else if encode_utf8(l@).len() > MAX_COMBINED_LINE_BYTES {
                    r == Some(Err::<WebEvent, _>(AccessLogParseError::Format))
                } else {
                    r is Some && is_line_result(r.unwrap(), trim_end_text(l@), self.format)
                },
            },
    {
        let text = match line {
            Some(text) => text,
            None => {
                return Some(Err(AccessLogParseError::Format));
            },
        };
        if trim(text).as_str().is_empty() {
            return None;
        }
        if text.as_bytes().len() > MAX_COMBINED_LINE_BYTES {
            return Some(Err(AccessLogParseError::Format));
        }
        Some(parse_combined_line(trim_end(text).as_str(), self.format))
    }
}

/// Whether two events say the same of a request, wherever they come from.
pub open spec fn same_observation(a: WebEvent, b: WebEvent) -> bool {
    &&& a.timestamp == b.timestamp
    &&& opt_text(a.source_ip) == opt_text(b.source_ip)
    &&& opt_text(a.client_ip) == opt_text(b.client_ip)
    &&& a.source_port == b.source_port
    &&& opt_text(a.country) == opt_text(b.country)
    &&& opt_text(a.host) == opt_text(b.host)
    &&& opt_text(a.method) == opt_text(b.method)
    &&& opt_text(a.uri) == opt_text(b.uri)
    &&& opt_text(a.uri_path) == opt_text(b.uri_path)
    &&& opt_text(a.uri_query) == opt_text(b.uri_query)
    &&& opt_text(a.uri_fragment) == opt_text(b.uri_fragment)
    &&& header_texts(a.headers@) == header_texts(b.headers@)
    &&& opt_text(a.user_agent) == opt_text(b.user_agent)
    &&& opt_text(a.referer) == opt_text(b.referer)
    &&& a.status == b.status
    &&& a.response_bytes == b.response_bytes
    &&& opt_text(a.protocol) == opt_text(b.protocol)
    &&& opt_text(a.request_id) == opt_text(b.request_id)
    &&& opt_text(a.ja3) == opt_text(b.ja3)
    &&& opt_text(a.ja4) == opt_text(b.ja4)
    &&& opt_text(a.tls_protocol) == opt_text(b.tls_protocol)
    &&& opt_text(a.tls_cipher) == opt_text(b.tls_cipher)
    &&& opt_text(a.waf_action) == opt_text(b.waf_action)
    &&& opt_text(a.waf_rule_id) == opt_text(b.waf_rule_id)
    &&& opt_text(a.waf_rule_type) == opt_text(b.waf_rule_type)
    &&& texts(a.waf_labels@) == texts(b.waf_labels@)
    &&& texts(a.waf_non_terminating_rule_ids@) == texts(b.waf_non_terminating_rule_ids@)
    &&& a.raw@ == b.raw@
}

/// A line gives the same observation, or the same error, as a line of nginx and as one of Apache;
/// only the recorded source differs.
pub proof fn nginx_and_apache_agree(
    raw: Seq<char>,
    nginx: Result<WebEvent, AccessLogParseError>,
    apache: Result<WebEvent, AccessLogParseError>,
)
    requires
        is_line_result(nginx, raw, AccessLogFormat::NginxCombined),
        is_line_result(apache, raw, AccessLogFormat::ApacheCombined),
    ensures
        match (nginx, apache) {
            (Ok(a), Ok(b)) => same_observation(a, b) && a.log_source is NginxCombined
                && b.log_source is ApacheCombined,
            (Err(a), Err(b)) => a == b,
            _ => false,
        },
{
    if nginx is Ok && apache is Ok {
        let (a, b) = (nginx.unwrap(), apache.unwrap());
        assert(texts(a.waf_labels@) =~= texts(b.waf_labels@));
        assert(texts(a.waf_non_terminating_rule_ids@) =~= texts(b.waf_non_terminating_rule_ids@));
    }
}

/// An event of a combined line has no headers but the referer and the user agent.
pub proof fn only_selected_headers(
    event: WebEvent,
    raw: Seq<char>,
    format: AccessLogFormat,
    fields: FieldTexts,
    time: Option<Timestamp>,
    i: int,
)
    requires
        is_event_of(event, raw, format, fields, time),
        0 <= i < event.headers@.len(),
    ensures
        event.headers@.len() <= 2,
        event.headers@[i].name@ == "Referer"@ || event.headers@[i].name@ == "User-Agent"@,
{
    let held = selected_headers(quoted_value(fields.referer), quoted_value(fields.user_agent));
    assert(header_texts(event.headers@).len() == event.headers@.len());
    assert(held.len() <= 2);
    assert(header_texts(event.headers@)[i].0 == event.headers@[i].name@);
    assert(held[i].0 == "Referer"@ || held[i].0 == "User-Agent"@);
}

} // verus!
