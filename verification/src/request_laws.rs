//! What a line of an access log gives back of the request that was written into it.

use crate::access_log::{
    decoded, header_texts, is_control, is_event_of, is_field_result, quoted_value, request_is_valid,
    target_parts, vhost_host, AccessLogFormat, AccessLogParseError, FieldTexts,
};
use crate::event::{LogSource, Timestamp, WebEvent};
use crate::lab_corpus::{decoding_undoes_escaping, escaped};
use crate::text::{
    decimal, lemma_first_of_unique, opt_text, starts_with_text, unsigned_value, words,
};
use crate::text_laws::{
    a_text_without_the_character_is_one_piece, decimal_numbers_are_read_back, has_no_space,
    only_digits_are_read, the_first_word_of_a_text, the_last_place_of_a_character,
};
use vstd::prelude::*;

verus! {

/// Whether a text holds no control character.
pub open spec fn is_printable(s: Seq<char>) -> bool {
    forall|i: int| 0 <= i < s.len() ==> !is_control(#[trigger] s[i])
}

/// A hexadecimal digit, whatever its case.
pub open spec fn is_hexadecimal(c: char) -> bool {
    ||| '0' <= c && c <= '9'
    ||| 'a' <= c && c <= 'f'
    ||| 'A' <= c && c <= 'F'
}

/// A request target: it starts with a slash, holds no white space, and has two hexadecimal digits
/// behind each percent sign.
pub open spec fn is_target(s: Seq<char>) -> bool {
    &&& s.len() > 0
    &&& s[0] == '/'
    &&& has_no_space(s)
    &&& forall|i: int|
        0 <= i < s.len() && #[trigger] s[i] == '%' ==> i + 2 < s.len() && is_hexadecimal(s[i + 1])
            && is_hexadecimal(s[i + 2])
}

/// A protocol of a version.
pub open spec fn protocol_of(version: Seq<char>) -> Seq<char> {
    seq!['H', 'T', 'T', 'P', '/'] + version
}

/// The request line of a method, a target and a version.
pub open spec fn request_line(
    method: Seq<char>,
    target: Seq<char>,
    version: Seq<char>,
) -> Seq<char> {
    method + seq![' '] + target + seq![' '] + protocol_of(version)
}

proof fn lemma_request_line(method: Seq<char>, target: Seq<char>, version: Seq<char>)
    requires
        method.len() > 0,
        has_no_space(method),
        is_target(target),
        has_no_space(version),
    ensures
        words(request_line(method, target, version)) == seq![method, target, protocol_of(version)],
        request_is_valid(request_line(method, target, version)),
{
    reveal_strlit("HTTP/");
    reveal_strlit("/");
    let protocol = protocol_of(version);
    let line = request_line(method, target, version);
    let rest = target + seq![' '] + protocol;
    assert forall|i: int| 0 <= i < protocol.len() implies !crate::text::is_space(
        #[trigger] protocol[i],
    ) by {
        if i >= 5 {
            assert(protocol[i] == version[i - 5]);
        }
    }
    assert(line =~= method + seq![' '] + rest);
    the_first_word_of_a_text(method, ' ', rest);
    the_first_word_of_a_text(target, ' ', protocol);
    the_first_word_of_a_text(protocol, ' ', Seq::empty());
    let w = words(line);
    assert(w =~= seq![method, target, protocol]);
    assert(protocol.subrange(0, 5) =~= "HTTP/"@);
    assert(starts_with_text(w[2], "HTTP/"@));
    assert(target.subrange(0, 1) =~= "/"@);
    assert(starts_with_text(w[1], "/"@));
}

/// Whether the virtual host of a line, in the format that has one, is a host and a port.
pub open spec fn vhost_is(
    format: AccessLogFormat,
    vhost: Seq<char>,
    host: Seq<char>,
    port: nat,
) -> bool {
    format is ApacheVhostCombined ==> host.len() > 0 && port <= 65535 && vhost == host + seq![':']
        + decimal(port)
}

proof fn lemma_no_colon(port: nat)
    ensures
        !decimal(port).contains(':'),
{
    let d = decimal(port);
    decimal_numbers_are_read_back(port, port);
    if d.contains(':') {
        let i = d.index_of(':');
        only_digits_are_read(d, port, i);
    }
}

/// The host of a host and a port is the host, whatever colons it holds, and there is none without
/// a host, without a port, or with a port beyond the largest.
pub proof fn a_host_is_what_stands_before_its_port(host: Seq<char>, port: nat)
    ensures
        vhost_host(host + seq![':'] + decimal(port)) == (if host.len() > 0 && port <= 65535 {
            Some(host)
        } else {
            None
        }),
        !host.contains(':') ==> vhost_host(host) is None,
{
    let s = host + seq![':'] + decimal(port);
    lemma_no_colon(port);
    the_last_place_of_a_character(host, ':', decimal(port));
    assert(s.skip(host.len() as int + 1) =~= decimal(port));
    assert(s.take(host.len() as int) =~= host);
    decimal_numbers_are_read_back(port, 65535);
    if !host.contains(':') {
        a_text_without_the_character_is_one_piece(host, ':');
    }
}

/// A request line of any method, any target and any version of the protocol is read without an
/// error, in every format, and gives the method, the target and the protocol back. So does the
/// line give its time, its peer and its text back, and its virtual host in the format that has
/// one.
pub proof fn a_written_request_is_read_back(
    r: Result<WebEvent, AccessLogParseError>,
    raw: Seq<char>,
    format: AccessLogFormat,
    fields: FieldTexts,
    time: Timestamp,
    method: Seq<char>,
    target: Seq<char>,
    version: Seq<char>,
    host: Seq<char>,
    port: nat,
)
    requires
        method.len() > 0,
        has_no_space(method),
        is_printable(method),
        is_target(target),
        is_printable(target),
        has_no_space(version),
        is_printable(version),
        fields.request == escaped(request_line(method, target, version)),
        vhost_is(format, fields.vhost, host, port),
        is_field_result(r, raw, format, fields, Some(time)),
    ensures
        r matches Ok(event) && {
            &&& opt_text(event.method) == Some(method)
            &&& opt_text(event.uri) == Some(target)
            &&& opt_text(event.protocol) == Some(protocol_of(version))
            &&& event.timestamp == Some(time)
            &&& opt_text(event.source_ip) == Some(fields.source_ip)
            &&& opt_text(event.host) == (if format is ApacheVhostCombined {
                Some(host)
            } else {
                None
            })
            &&& event.raw@ == raw
            &&& event.log_source == (match format {
                AccessLogFormat::NginxCombined => LogSource::NginxCombined,
                AccessLogFormat::ApacheCombined => LogSource::ApacheCombined,
                AccessLogFormat::ApacheVhostCombined => LogSource::ApacheVhostCombined,
            })
            &&& event.client_ip is None
            &&& event.request_id is None
            &&& event.ja3 is None
            &&& event.ja4 is None
        },
{
    let line = request_line(method, target, version);
    assert forall|i: int| 0 <= i < line.len() implies !is_control(#[trigger] line[i]) by {
        let (m, t) = (method.len() as int, target.len() as int);
        if i < m {
            assert(line[i] == method[i]);
        } else if m < i < m + 1 + t {
            assert(line[i] == target[i - m - 1]);
        } else if i >= m + t + 7 {
            assert(line[i] == version[i - m - t - 7]);
        }
    }
    decoding_undoes_escaping(line);
    lemma_request_line(method, target, version);
    a_host_is_what_stands_before_its_port(host, port);
}

/// A request line that is accepted has three words: a method, a target, and a protocol with its
/// name and a version.
pub proof fn an_accepted_request_is_one(
    event: WebEvent,
    raw: Seq<char>,
    format: AccessLogFormat,
    fields: FieldTexts,
    time: Option<Timestamp>,
)
    requires
        is_field_result(Ok::<WebEvent, AccessLogParseError>(event), raw, format, fields, time),
    ensures
        time is Some,
        decoded(fields.request) matches Some(line) && {
            let w = words(line);
            &&& w.len() == 3
            &&& opt_text(event.method) == Some(w[0])
            &&& opt_text(event.uri) == Some(w[1])
            &&& w[1].len() > 0 && w[1][0] == '/'
            &&& forall|i: int|
                0 <= i < w[1].len() && #[trigger] w[1][i] == '%' ==> i + 2 < w[1].len()
                    && is_hexadecimal(w[1][i + 1]) && is_hexadecimal(w[1][i + 2])
            &&& opt_text(event.protocol) == Some(w[2])
            &&& w[2].len() >= 5 && w[2].take(5) == seq!['H', 'T', 'T', 'P', '/']
        },
{
    reveal_strlit("HTTP/");
    reveal_strlit("/");
    let w = words(decoded(fields.request).unwrap());
    assert(w[2].take(5) =~= w[2].subrange(0, 5));
    assert(w[1].subrange(0, 1)[0] == w[1][0]);
    assert("HTTP/"@ =~= seq!['H', 'T', 'T', 'P', '/']);
}

/// Which error a line gives: that of its timestamp first, then that of an unreadable field, then
/// that of its request line, and last that of its virtual host.
pub proof fn the_first_error_is_given(
    r: Result<WebEvent, AccessLogParseError>,
    raw: Seq<char>,
    format: AccessLogFormat,
    fields: FieldTexts,
    time: Option<Timestamp>,
)
    requires
        is_field_result(r, raw, format, fields, time),
    ensures
        time is None ==> r == Err::<WebEvent, _>(AccessLogParseError::Timestamp),
        time is Some && decoded(fields.request) is None ==> r == Err::<WebEvent, _>(
            AccessLogParseError::Format,
        ),
        time is Some && decoded(fields.request) is Some && words(
            decoded(fields.request).unwrap(),
        ).len() != 3 ==> r == Err::<WebEvent, _>(AccessLogParseError::Request),
        r matches Err(e) ==> match e {
            AccessLogParseError::Timestamp => time is None,
            AccessLogParseError::Request => time is Some && decoded(fields.request) is Some,
            AccessLogParseError::Format => time is Some,
        },
{
}

/// A target of a path, a query and a fragment is taken apart at the first number sign and, before
/// it, at the first question mark. A query or a fragment that is empty counts as none.
pub proof fn a_target_is_taken_apart(
    path: Seq<char>,
    query: Option<Seq<char>>,
    fragment: Option<Seq<char>>,
)
    requires
        !path.contains('?'),
        !path.contains('#'),
        query matches Some(q) ==> !q.contains('#'),
    ensures
        ({
            let asked = match query {
                Some(q) => path + seq!['?'] + q,
                None => path,
            };
            let target = match fragment {
                Some(f) => asked + seq!['#'] + f,
                None => asked,
            };
            let parts = target_parts(target);
            &&& parts.0 == path
            &&& parts.1 == (if query matches Some(q) && q.len() > 0 {
                query
            } else {
                None
            })
            &&& parts.2 == (if fragment matches Some(f) && f.len() > 0 {
                fragment
            } else {
                None
            })
        }),
{
    let asked = match query {
        Some(q) => path + seq!['?'] + q,
        None => path,
    };
    let target = match fragment {
        Some(f) => asked + seq!['#'] + f,
        None => asked,
    };
    let n = asked.len() as int;
    assert forall|i: int| 0 <= i < n implies asked[i] != '#' by {
        if i < path.len() {
            assert(asked[i] == path[i]);
            assert(path.contains(path[i]));
        } else if i > path.len() {
            let q = query.unwrap();
            assert(asked[i] == q[i - path.len() - 1]);
            assert(q.contains(q[i - path.len() - 1]));
        }
    }
    assert forall|i: int| 0 <= i < n implies target[i] == asked[i] by {}
    lemma_first_of_unique(target, '#', n);
    assert(target.take(n) =~= asked);
    if let Some(f) = fragment {
        assert(target.skip(n + 1) =~= f);
    }
    let m = path.len() as int;
    assert forall|i: int| 0 <= i < m implies asked[i] != '?' by {
        assert(asked[i] == path[i]);
        assert(path.contains(path[i]));
    }
    lemma_first_of_unique(asked, '?', m);
    assert(asked.take(m) =~= path);
    if let Some(q) = query {
        assert(asked.skip(m + 1) =~= q);
    }
}

/// The values of a line are given back: the parts of the target, the status and the size where
/// they are numbers in range, and the referer and the user agent, of which a single hyphen stands
/// for none. Those two are also the only headers, in that order.
pub proof fn written_values_are_read_back(
    event: WebEvent,
    raw: Seq<char>,
    format: AccessLogFormat,
    fields: FieldTexts,
    time: Option<Timestamp>,
    status: nat,
    size: nat,
    referer: Seq<char>,
    user_agent: Seq<char>,
)
    requires
        is_event_of(event, raw, format, fields, time),
        fields.status == decimal(status),
        fields.response_bytes == decimal(size) || fields.response_bytes == seq!['-'],
        is_printable(referer),
        is_printable(user_agent),
        fields.referer == escaped(referer),
        fields.user_agent == escaped(user_agent),
    ensures
        event.status == (if status <= 65535 {
            Some(status as u16)
        } else {
            None
        }),
        event.response_bytes == (if fields.response_bytes == decimal(size) && size <= u64::MAX {
            Some(size as u64)
        } else {
            None
        }),
        opt_text(event.referer) == (if referer == seq!['-'] {
            None
        } else {
            Some(referer)
        }),
        opt_text(event.user_agent) == (if user_agent == seq!['-'] {
            None
        } else {
            Some(user_agent)
        }),
        opt_text(event.uri) matches Some(target) && {
            &&& opt_text(event.uri_path) == Some(target_parts(target).0)
            &&& opt_text(event.uri_query) == target_parts(target).1
            &&& opt_text(event.uri_fragment) == target_parts(target).2
        },
        header_texts(event.headers@) == (if referer == seq!['-'] {
            Seq::<(Seq<char>, Seq<char>)>::empty()
        } else {
            seq![("Referer"@, referer)]
        }) + (if user_agent == seq!['-'] {
            Seq::<(Seq<char>, Seq<char>)>::empty()
        } else {
            seq![("User-Agent"@, user_agent)]
        }),
{
    decimal_numbers_are_read_back(status, 65535);
    decimal_numbers_are_read_back(size, u64::MAX as nat);
    lemma_hyphen(referer);
    lemma_hyphen(user_agent);
    if fields.response_bytes == seq!['-'] {
        if unsigned_value(seq!['-'], u64::MAX as nat) is Some {
            only_digits_are_read(seq!['-'], u64::MAX as nat, 0);
        }
        if unsigned_value(decimal(size), size) is Some && decimal(size) == seq!['-'] {
            only_digits_are_read(decimal(size), size, 0);
        }
        decimal_numbers_are_read_back(size, size);
    }
    let first = if referer == seq!['-'] {
        Seq::<(Seq<char>, Seq<char>)>::empty()
    } else {
        seq![("Referer"@, referer)]
    };
    let second = if user_agent == seq!['-'] {
        Seq::<(Seq<char>, Seq<char>)>::empty()
    } else {
        seq![("User-Agent"@, user_agent)]
    };
    assert(header_texts(event.headers@) =~= first + second);
}

proof fn lemma_hyphen(value: Seq<char>)
    requires
        is_printable(value),
    ensures
        quoted_value(escaped(value)) == (if value == seq!['-'] {
            None
        } else {
            Some(value)
        }),
{
    reveal_strlit("-");
    decoding_undoes_escaping(value);
    assert("-"@ =~= seq!['-']);
    let one = seq!['-'];
    decoding_undoes_escaping(one);
    reveal_with_fuel(escaped, 2);
    assert(one.drop_last() =~= Seq::<char>::empty());
    assert(escaped(one) =~= one);
}

} // verus!
