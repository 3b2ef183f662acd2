//! What is kept of single events, texts and addresses.

use crate::digest::{hex, hex_has_two_digits_for_each_byte};
use crate::event::{TelemetryCapabilities, WebEvent};
use crate::investigation::{is_record, ContextOptions, ContextRecord};
use crate::json::hex_char;
use crate::network::{canonical, ipv4_display, Address};
use crate::rule_meaning::hex_value;
use crate::text::{decimal, lower, lower_char, texts, upper, upper_char};
use vstd::prelude::*;

verus! {

/// A record of a context says of its request what the event does: its time, its peer, its method,
/// its path, its status and its size, and where it was found. What the telemetry records beyond
/// that is given where it does.
pub proof fn records_say_what_the_event_does(
    r: ContextRecord,
    e: WebEvent,
    options: ContextOptions,
    fields: TelemetryCapabilities,
    file: Seq<char>,
    line: u64,
)
    requires
        is_record(r, e, options, fields, file, line),
    ensures
        e.timestamp == Some(r.timestamp),
        e.source_ip == Some(r.source_ip),
        r.method == e.method,
        r.uri_path == e.uri_path,
        r.response_status == e.status,
        r.response_bytes == e.response_bytes,
        r.source_reference.input_file@ == file,
        r.source_reference.line_number == line,
        options.include_query ==> r.uri_query == e.uri_query,
        options.include_query && fields.referer ==> r.referer == e.referer,
        fields.host ==> r.host == e.host,
        fields.user_agent ==> r.user_agent == e.user_agent,
        fields.ja3 ==> r.ja3 == e.ja3,
        fields.ja4 ==> r.ja4 == e.ja4,
        fields.waf_action ==> r.waf_action == e.waf_action,
        fields.waf_labels ==> r.waf_labels == e.waf_labels,
        options.country_recorded ==> r.country == e.country,
{
}

/// One value, or none.
pub open spec fn one(value: Option<String>) -> Option<Seq<Seq<char>>> {
    match value {
        Some(v) => Some(seq![v@]),
        None => None,
    }
}

/// The attribute of an event under a name is that of its field, whatever the case of the name.
pub proof fn attributes_are_fields(e: WebEvent, field: Seq<char>)
    ensures
        lower(field) == "cs-method"@ || lower(field) == "method"@ ==> e.attribute(field) == one(
            e.method,
        ),
        lower(field) == "cs-uri"@ || lower(field) == "uri"@ ==> e.attribute(field) == one(e.uri),
        lower(field) == "cs-uri-stem"@ || lower(field) == "uri_path"@ ==> e.attribute(field) == one(
            e.uri_path,
        ),
        lower(field) == "cs-uri-query"@ || lower(field) == "uri_query"@ ==> e.attribute(field)
            == one(e.uri_query),
        lower(field) == "cs-host"@ || lower(field) == "host"@ ==> e.attribute(field) == one(e.host),
        lower(field) == "cs-user-agent"@ || lower(field) == "c-useragent"@ || lower(field)
            == "user_agent"@ ==> e.attribute(field) == one(e.user_agent),
        lower(field) == "cs-referer"@ || lower(field) == "referer"@ ==> e.attribute(field) == one(
            e.referer,
        ),
        lower(field) == "c-ip"@ || lower(field) == "source_ip"@ ==> e.attribute(field) == one(
            e.source_ip,
        ),
        lower(field) == "client_ip"@ ==> e.attribute(field) == one(e.client_ip),
        lower(field) == "ja3"@ ==> e.attribute(field) == one(e.ja3),
        lower(field) == "ja4"@ ==> e.attribute(field) == one(e.ja4),
        lower(field) == "waf_action"@ ==> e.attribute(field) == one(e.waf_action),
        lower(field) == "waf_labels"@ ==> e.attribute(field) == Some(texts(e.waf_labels@)),
        lower(field) == "sc-status"@ || lower(field) == "status"@ ==> e.attribute(field) == (
        match e.status {
            Some(code) => Some(seq![decimal(code as nat)]),
            None => None,
        }),
{
    reveal_strlit("cs-method");
    reveal_strlit("method");
    reveal_strlit("cs-uri");
    reveal_strlit("uri");
    reveal_strlit("cs-uri-stem");
    reveal_strlit("uri_path");
    reveal_strlit("cs-uri-query");
    reveal_strlit("uri_query");
    reveal_strlit("uri_fragment");
    reveal_strlit("cs-host");
    reveal_strlit("host");
    reveal_strlit("cs-user-agent");
    reveal_strlit("c-useragent");
    reveal_strlit("user_agent");
    reveal_strlit("cs-referer");
    reveal_strlit("referer");
    reveal_strlit("c-ip");
    reveal_strlit("source_ip");
    reveal_strlit("client_ip");
    reveal_strlit("sc-status");
    reveal_strlit("status");
    reveal_strlit("ja3");
    reveal_strlit("ja4");
    reveal_strlit("tls_protocol");
    reveal_strlit("ssl_protocol");
    reveal_strlit("tls_cipher");
    reveal_strlit("ssl_cipher");
    reveal_strlit("waf_action");
    reveal_strlit("waf_rule_id");
    reveal_strlit("waf_labels");
    let name = lower(field);
    let (n, a, b, c) = (name.len(), name[0], name[1], name[4]);
    assert("method"@[1] == 'e' && "cs-uri"@[1] == 's' && "status"@[1] == 't');
    assert("cs-method"@[3] == 'm' && "uri_query"@[3] == '_' && "source_ip"@[3] == 'r'
        && "client_ip"@[3] == 'e' && "sc-status"@[3] == 's');
    assert("uri"@[0] == 'u' && "ja3"@[0] == 'j' && "ja4"@[2] == '4' && "ja3"@[2] == '3');
    assert("host"@[0] == 'h' && "c-ip"@[0] == 'c');
    assert("cs-host"@[0] == 'c' && "referer"@[0] == 'r');
    assert("cs-uri-stem"@[2] == '-' && "c-useragent"@[2] == 'u' && "waf_rule_id"@[2] == 'f');
    assert("user_agent"@[0] == 'u' && "cs-referer"@[0] == 'c' && "tls_cipher"@[0] == 't'
        && "ssl_cipher"@[0] == 's' && "waf_action"@[4] == 'a' && "waf_labels"@[4] == 'l');
    assert("cs-uri-query"@[0] == 'c' && "uri_fragment"@[0] == 'u' && "tls_protocol"@[0] == 't'
        && "ssl_protocol"@[0] == 's');
}

/// Small and capital letters are those of the alphabet, in pairs, and other characters stay as
/// they are.
pub proof fn letters_come_in_pairs(c: char, s: Seq<char>)
    ensures
        'A' <= c && c <= 'Z' ==> lower_char(c) as int - 'a' as int == c as int - 'A' as int
            && upper_char(lower_char(c)) == c,
        'a' <= c && c <= 'z' ==> upper_char(c) as int - 'A' as int == c as int - 'a' as int
            && lower_char(upper_char(c)) == c,
        !('A' <= c && c <= 'Z') ==> lower_char(c) == c,
        !('a' <= c && c <= 'z') ==> upper_char(c) == c,
        lower(s).len() == s.len(),
        upper(s).len() == s.len(),
        lower(upper(s)) == lower(s),
        upper(lower(s)) == upper(s),
{
    assert(lower(upper(s)) =~= lower(s));
    assert(upper(lower(s)) =~= upper(s));
}

/// Hexadecimal text gives each byte back from its two digits.
pub proof fn hexadecimal_digits_give_bytes_back(bytes: Seq<u8>, i: int)
    requires
        0 <= i < bytes.len(),
    ensures
        hex(bytes).len() == 2 * bytes.len(),
        hex_value(hex(bytes)[2 * i]) is Some,
        hex_value(hex(bytes)[2 * i + 1]) is Some,
        hex_value(hex(bytes)[2 * i]).unwrap() * 16 + hex_value(hex(bytes)[2 * i + 1]).unwrap()
            == bytes[i],
    decreases bytes.len(),
{
    let rest = bytes.drop_last();
    hex_has_two_digits_for_each_byte(bytes);
    hex_has_two_digits_for_each_byte(rest);
    if i < rest.len() {
        hexadecimal_digits_give_bytes_back(rest, i);
        assert(hex(bytes)[2 * i] == hex(rest)[2 * i]);
        assert(hex(bytes)[2 * i + 1] == hex(rest)[2 * i + 1]);
    } else {
        let b = bytes.last();
        assert(hex(bytes)[2 * i] == hex_char((b / 16) as nat));
        assert(hex(bytes)[2 * i + 1] == hex_char((b % 16) as nat));
    }
}

/// An IPv4 address inside an IPv6 one is taken as the IPv4 address, and every other address is
/// taken as it is.
pub proof fn mapped_addresses_are_taken_as_ipv4(address: Address, bits: u32)
    ensures
        canonical(Address { v4: false, bits: (0xffff_0000_0000u128 + bits) as u128 }) == (Address {
            v4: true,
            bits: bits as u128,
        }),
        address.v4 ==> canonical(address) == address,
        !address.v4 && !(0xffff_0000_0000 <= address.bits <= 0xffff_ffff_ffff) ==> canonical(
            address,
        ) == address,
        canonical(canonical(address)) == canonical(address),
{
}

/// An IPv4 address is written with its four bytes in decimal notation, from the first on, and
/// dots between them.
pub proof fn ipv4_addresses_are_written_with_dots(a: u8, b: u8, c: u8, d: u8)
    ensures
        ipv4_display((a * 0x100_0000 + b * 0x1_0000 + c * 0x100 + d) as u32) == decimal(a as nat)
            + seq!['.'] + decimal(b as nat) + seq!['.'] + decimal(c as nat) + seq!['.'] + decimal(
            d as nat,
        ),
{
    reveal_strlit(".");
    assert("."@ =~= seq!['.']);
    let n = (a * 0x100_0000 + b * 0x1_0000 + c * 0x100 + d) as u32;
    assert(n as nat / 0x100_0000 == a);
    assert(n as nat / 0x1_0000 % 0x100 == b);
    assert(n as nat / 0x100 % 0x100 == c);
    assert(n as nat % 0x100 == d);
}

} // verus!
