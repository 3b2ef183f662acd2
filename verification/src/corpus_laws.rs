//! What synthetic requests, batches of candidates and written numbers are.

use crate::candidate::{
    is_batch, members_of, occurrences, pattern_before, three_digits, DefensiveCandidate,
    PatternModel,
};
use crate::comparison::{comparison_kind, incomparable, RunArtifacts};
use crate::event::TelemetryProfile;
use crate::finding::FindingExplanation;
use crate::json::{field_of, first_field, JsonModel};
use crate::lab::{
    drawn, large_event, EventModel, GeneratorConfig, TruthClass,
};
use crate::lab_corpus::{
    counted_rule, header_items, label_items, request_json, text_field, waf_record, with_text,
};
use crate::text::{
    decimal, lemma_first_of, line_list, opt_text, signed_decimal, split_on, texts, without_return,
};
use crate::text_laws::{a_text_without_the_character_is_one_piece, pieces_of_joined_texts};
use vstd::prelude::*;

verus! {

/// What a field more at the end of an object changes.
proof fn lemma_pushed(
    fields: Seq<(Seq<char>, JsonModel)>,
    field: (Seq<char>, JsonModel),
    name: Seq<char>,
)
    ensures
        first_field(fields.push(field), name) == (if first_field(fields, name) is Some {
            first_field(fields, name)
        } else if field.0 == name {
            Some(field.1)
        } else {
            None
        }),
    decreases fields.len(),
{
    let all = fields.push(field);
    if fields.len() == 0 {
        assert(all.skip(1) =~= Seq::empty());
        reveal_with_fuel(first_field, 2);
    } else {
        assert(all.skip(1) =~= fields.skip(1).push(field));
        lemma_pushed(fields.skip(1), field, name);
    }
}

proof fn lemma_request_field(e: EventModel, name: Seq<char>)
    ensures
        first_field(request_json(e)->Object_0, name) == (if name == "args"@ && e.args is Some {
            Some(JsonModel::Text(e.args.unwrap()))
        } else if name == "clientIp"@ {
            Some(JsonModel::Text(e.source_ip))
        } else if name == "country"@ {
            Some(JsonModel::Text("US"@))
        } else if name == "headers"@ {
            Some(JsonModel::List(header_items(e.headers)))
        } else if name == "httpMethod"@ {
            Some(JsonModel::Text(e.method))
        } else if name == "httpVersion"@ {
            Some(JsonModel::Text("HTTP/2.0"@))
        } else if name == "requestId"@ {
            Some(JsonModel::Text(e.id))
        } else if name == "uri"@ {
            Some(JsonModel::Text(e.path))
        } else {
            None
        }),
{
    reveal_strlit("args");
    reveal_strlit("clientIp");
    reveal_strlit("country");
    reveal_strlit("headers");
    reveal_strlit("httpMethod");
    reveal_strlit("httpVersion");
    reveal_strlit("requestId");
    reveal_strlit("uri");
    assert("args"@.len() == 4);
    assert("clientIp"@.len() == 8);
    assert("country"@.len() == 7);
    assert("headers"@.len() == 7);
    assert("httpMethod"@.len() == 10);
    assert("httpVersion"@.len() == 11);
    assert("requestId"@.len() == 9);
    assert("uri"@.len() == 3);
    assert("headers"@[0] == 'h' && "country"@[0] == 'c');
    let f0: Seq<(Seq<char>, JsonModel)> = seq![];
    let f1 = with_text(f0, "args"@, e.args);
    let f2 = text_field(f1, "clientIp"@, e.source_ip);
    let f3 = text_field(f2, "country"@, "US"@);
    let headers = ("headers"@, JsonModel::List(header_items(e.headers)));
    let f4 = f3.push(headers);
    let f5 = text_field(f4, "httpMethod"@, e.method);
    let f6 = text_field(f5, "httpVersion"@, "HTTP/2.0"@);
    let f7 = text_field(f6, "requestId"@, e.id);
    if let Some(query) = e.args {
        lemma_pushed(f0, ("args"@, JsonModel::Text(query)), name);
    }
    lemma_pushed(f1, ("clientIp"@, JsonModel::Text(e.source_ip)), name);
    lemma_pushed(f2, ("country"@, JsonModel::Text("US"@)), name);
    lemma_pushed(f3, headers, name);
    lemma_pushed(f4, ("httpMethod"@, JsonModel::Text(e.method)), name);
    lemma_pushed(f5, ("httpVersion"@, JsonModel::Text("HTTP/2.0"@)), name);
    lemma_pushed(f6, ("requestId"@, JsonModel::Text(e.id)), name);
    lemma_pushed(f7, ("uri"@, JsonModel::Text(e.path)), name);
}

/// A record gives the request under the names that records use: its source, method, path, query,
/// headers and name.
pub proof fn records_give_their_request(e: EventModel)
    ensures
        ({
            let r = request_json(e);
            &&& field_of(r, "clientIp"@) == Some(JsonModel::Text(e.source_ip))
            &&& field_of(r, "httpMethod"@) == Some(JsonModel::Text(e.method))
            &&& field_of(r, "uri"@) == Some(JsonModel::Text(e.path))
            &&& field_of(r, "requestId"@) == Some(JsonModel::Text(e.id))
            &&& field_of(r, "args"@) == (match e.args {
                Some(query) => Some(JsonModel::Text(query)),
                None => None,
            })
            &&& field_of(r, "headers"@) is Some && field_of(r, "headers"@).unwrap() is List
            &&& field_of(r, "headers"@).unwrap()->List_0.len() == e.headers.len()
        }),
{
    reveal_strlit("args");
    reveal_strlit("clientIp");
    reveal_strlit("country");
    reveal_strlit("headers");
    reveal_strlit("httpMethod");
    reveal_strlit("httpVersion");
    reveal_strlit("requestId");
    reveal_strlit("uri");
    assert("args"@.len() == 4);
    assert("clientIp"@.len() == 8);
    assert("country"@.len() == 7);
    assert("headers"@.len() == 7);
    assert("httpMethod"@.len() == 10);
    assert("httpVersion"@.len() == 11);
    assert("requestId"@.len() == 9);
    assert("uri"@.len() == 3);
    assert("headers"@[0] == 'h' && "country"@[0] == 'c');
    lemma_request_field(e, "clientIp"@);
    lemma_request_field(e, "httpMethod"@);
    lemma_request_field(e, "uri"@);
    lemma_request_field(e, "requestId"@);
    lemma_request_field(e, "args"@);
    lemma_request_field(e, "headers"@);
}

/// A header of a request stands at its place in a record, with its name and its value; so does a
/// label.
pub proof fn records_give_headers_and_labels(
    headers: Seq<(Seq<char>, Seq<char>)>,
    labels: Seq<Seq<char>>,
    i: int,
)
    ensures
        header_items(headers).len() == headers.len(),
        label_items(labels).len() == labels.len(),
        0 <= i < headers.len() ==> field_of(header_items(headers)[i], "name"@) == Some(
            JsonModel::Text(headers[i].0),
        ) && field_of(header_items(headers)[i], "value"@) == Some(JsonModel::Text(headers[i].1)),
        0 <= i < labels.len() ==> field_of(label_items(labels)[i], "name"@) == Some(
            JsonModel::Text(labels[i]),
        ),
{
    reveal_strlit("name");
    reveal_strlit("value");
    reveal_with_fuel(first_field, 3);
    if 0 <= i < headers.len() {
        let fields = seq![
            ("name"@, JsonModel::Text(headers[i].0)),
            ("value"@, JsonModel::Text(headers[i].1)),
        ];
        assert(header_items(headers)[i] == JsonModel::Object(fields));
        assert(fields.skip(1)[0] == fields[1]);
        assert(fields[0].0 == "name"@ && fields[1].0 == "value"@);
    }
    if 0 <= i < labels.len() {
        let fields = seq![("name"@, JsonModel::Text(labels[i]))];
        assert(label_items(labels)[i] == JsonModel::Object(fields));
    }
}

proof fn lemma_record_field(e: EventModel, name: Seq<char>)
    requires
        name == "action"@ || name == "httpRequest"@ || name == "ja3Fingerprint"@ || name
            == "ja4Fingerprint"@ || name == "labels"@ || name == "responseCodeSent"@ || name
            == "timestamp"@,
    ensures
        first_field(waf_record(e)->Object_0, name) == (if name == "action"@ {
            Some(JsonModel::Text(e.action))
        } else if name == "httpRequest"@ {
            Some(request_json(e))
        } else if name == "ja3Fingerprint"@ {
            match e.ja3 {
                Some(t) => Some(JsonModel::Text(t)),
                None => None,
            }
        } else if name == "ja4Fingerprint"@ {
            match e.ja4 {
                Some(t) => Some(JsonModel::Text(t)),
                None => None,
            }
        } else if name == "labels"@ {
            Some(JsonModel::List(label_items(e.labels)))
        } else if name == "responseCodeSent"@ {
            match e.status {
                Some(status) => Some(JsonModel::Number(decimal(status as nat))),
                None => None,
            }
        } else {
            Some(JsonModel::Number(signed_decimal(e.timestamp)))
        }),
{
    reveal_strlit("action");
    reveal_strlit("formatVersion");
    reveal_strlit("httpRequest");
    reveal_strlit("httpSourceId");
    reveal_strlit("httpSourceName");
    reveal_strlit("ja3Fingerprint");
    reveal_strlit("ja4Fingerprint");
    reveal_strlit("labels");
    reveal_strlit("nonTerminatingMatchingRules");
    reveal_strlit("responseCodeSent");
    reveal_strlit("terminatingRuleId");
    reveal_strlit("terminatingRuleType");
    reveal_strlit("timestamp");
    reveal_strlit("webaclId");
    assert("action"@.len() == 6);
    assert("formatVersion"@.len() == 13);
    assert("httpRequest"@.len() == 11);
    assert("httpSourceId"@.len() == 12);
    assert("httpSourceName"@.len() == 14);
    assert("ja3Fingerprint"@.len() == 14);
    assert("ja4Fingerprint"@.len() == 14);
    assert("labels"@.len() == 6);
    assert("nonTerminatingMatchingRules"@.len() == 27);
    assert("responseCodeSent"@.len() == 16);
    assert("terminatingRuleId"@.len() == 17);
    assert("terminatingRuleType"@.len() == 19);
    assert("timestamp"@.len() == 9);
    assert("webaclId"@.len() == 8);
    assert("ja3Fingerprint"@[0] == 'j' && "httpSourceName"@[0] == 'h');
    assert("ja4Fingerprint"@[0] == 'j' && "httpSourceName"@[0] == 'h');
    assert("ja4Fingerprint"@[2] == '4' && "ja3Fingerprint"@[2] == '3');
    assert("labels"@[0] == 'l' && "action"@[0] == 'a');
    let f0: Seq<(Seq<char>, JsonModel)> = seq![];
    let f1 = text_field(f0, "action"@, e.action);
    let version = ("formatVersion"@, JsonModel::Number(decimal(1)));
    let f2 = f1.push(version);
    let f3 = f2.push(("httpRequest"@, request_json(e)));
    let f4 = text_field(f3, "httpSourceId"@, "app/synthetic/0001"@);
    let f5 = text_field(f4, "httpSourceName"@, "ALB"@);
    let f6 = with_text(f5, "ja3Fingerprint"@, e.ja3);
    let f7 = with_text(f6, "ja4Fingerprint"@, e.ja4);
    let labels = ("labels"@, JsonModel::List(label_items(e.labels)));
    let f8 = f7.push(labels);
    let counted = ("nonTerminatingMatchingRules"@, JsonModel::List(seq![counted_rule()]));
    let f9 = f8.push(counted);
    let f10 = match e.status {
        Some(status) => f9.push(
            ("responseCodeSent"@, JsonModel::Number(decimal(status as nat))),
        ),
        None => f9,
    };
    let rule = if e.action == "BLOCK"@ {
        "synthetic-block"@
    } else {
        "Default_Action"@
    };
    let f11 = text_field(f10, "terminatingRuleId"@, rule);
    let f12 = text_field(f11, "terminatingRuleType"@, "REGULAR"@);
    let time = ("timestamp"@, JsonModel::Number(signed_decimal(e.timestamp)));
    let f13 = f12.push(time);
    lemma_pushed(f0, ("action"@, JsonModel::Text(e.action)), name);
    lemma_pushed(f1, version, name);
    lemma_pushed(f2, ("httpRequest"@, request_json(e)), name);
    lemma_pushed(f3, ("httpSourceId"@, JsonModel::Text("app/synthetic/0001"@)), name);
    lemma_pushed(f4, ("httpSourceName"@, JsonModel::Text("ALB"@)), name);
    if let Some(t) = e.ja3 {
        lemma_pushed(f5, ("ja3Fingerprint"@, JsonModel::Text(t)), name);
    }
    if let Some(t) = e.ja4 {
        lemma_pushed(f6, ("ja4Fingerprint"@, JsonModel::Text(t)), name);
    }
    lemma_pushed(f7, labels, name);
    lemma_pushed(f8, counted, name);
    if let Some(status) = e.status {
        lemma_pushed(f9, ("responseCodeSent"@, JsonModel::Number(decimal(status as nat))), name);
    }
    lemma_pushed(f10, ("terminatingRuleId"@, JsonModel::Text(rule)), name);
    lemma_pushed(f11, ("terminatingRuleType"@, JsonModel::Text("REGULAR"@)), name);
    lemma_pushed(f12, time, name);
    lemma_pushed(f13, ("webaclId"@, JsonModel::Text("synthetic-web-acl"@)), name);
}

/// A record gives the action, the fingerprints, the labels, the status and the time of the event,
/// each under its name, and those that the event has not are left out.
pub proof fn records_give_what_was_observed(e: EventModel)
    ensures
        ({
            let r = waf_record(e);
            &&& field_of(r, "action"@) == Some(JsonModel::Text(e.action))
            &&& field_of(r, "httpRequest"@) == Some(request_json(e))
            &&& field_of(r, "ja3Fingerprint"@) == (match e.ja3 {
                Some(t) => Some(JsonModel::Text(t)),
                None => None,
            })
            &&& field_of(r, "ja4Fingerprint"@) == (match e.ja4 {
                Some(t) => Some(JsonModel::Text(t)),
                None => None,
            })
            &&& field_of(r, "labels"@) == Some(JsonModel::List(label_items(e.labels)))
            &&& field_of(r, "responseCodeSent"@) == (match e.status {
                Some(status) => Some(JsonModel::Number(decimal(status as nat))),
                None => None,
            })
            &&& field_of(r, "timestamp"@) == Some(JsonModel::Number(signed_decimal(e.timestamp)))
        }),
{
    reveal_strlit("action");
    reveal_strlit("formatVersion");
    reveal_strlit("httpRequest");
    reveal_strlit("httpSourceId");
    reveal_strlit("httpSourceName");
    reveal_strlit("ja3Fingerprint");
    reveal_strlit("ja4Fingerprint");
    reveal_strlit("labels");
    reveal_strlit("nonTerminatingMatchingRules");
    reveal_strlit("responseCodeSent");
    reveal_strlit("terminatingRuleId");
    reveal_strlit("terminatingRuleType");
    reveal_strlit("timestamp");
    reveal_strlit("webaclId");
    assert("action"@.len() == 6);
    assert("formatVersion"@.len() == 13);
    assert("httpRequest"@.len() == 11);
    assert("httpSourceId"@.len() == 12);
    assert("httpSourceName"@.len() == 14);
    assert("ja3Fingerprint"@.len() == 14);
    assert("ja4Fingerprint"@.len() == 14);
    assert("labels"@.len() == 6);
    assert("nonTerminatingMatchingRules"@.len() == 27);
    assert("responseCodeSent"@.len() == 16);
    assert("terminatingRuleId"@.len() == 17);
    assert("terminatingRuleType"@.len() == 19);
    assert("timestamp"@.len() == 9);
    assert("webaclId"@.len() == 8);
    assert("ja3Fingerprint"@[0] == 'j' && "httpSourceName"@[0] == 'h');
    assert("ja4Fingerprint"@[0] == 'j' && "httpSourceName"@[0] == 'h');
    assert("ja4Fingerprint"@[2] == '4' && "ja3Fingerprint"@[2] == '3');
    assert("labels"@[0] == 'l' && "action"@[0] == 'a');
    lemma_record_field(e, "action"@);
    lemma_record_field(e, "httpRequest"@);
    lemma_record_field(e, "ja3Fingerprint"@);
    lemma_record_field(e, "ja4Fingerprint"@);
    lemma_record_field(e, "labels"@);
    lemma_record_field(e, "responseCodeSent"@);
    lemma_record_field(e, "timestamp"@);
}

/// A negative number is written with a minus before the number without its sign, and any other as
/// it is.
pub proof fn signs_are_written(n: nat)
    ensures
        signed_decimal(n as int) == decimal(n),
        n > 0 ==> signed_decimal(-n) == seq!['-'] + decimal(n),
{
    reveal_strlit("-");
    assert("-"@ =~= seq!['-']);
}

/// Lines are what stands before each end of a line, without a return before it, and what stands
/// behind the last one where there is anything.
pub proof fn lines_end_at_line_ends(line: Seq<char>, rest: Seq<char>)
    requires
        !line.contains('\n'),
    ensures
        line.len() > 0 ==> line_list(line) == seq![line],
        line_list(Seq::empty()).len() == 0,
        line_list(line + seq!['\n'] + rest) == seq![
            if line.len() > 0 && line.last() == '\r' {
                line.drop_last()
            } else {
                line
            },
        ] + line_list(rest),
{
    a_text_without_the_character_is_one_piece(line, '\n');
    a_text_without_the_character_is_one_piece(Seq::empty(), '\n');
    assert(line_list(line) =~= if line.len() == 0 {
        Seq::<Seq<char>>::empty()
    } else {
        seq![line]
    });
    assert(line_list(Seq::empty()) =~= Seq::<Seq<char>>::empty());
    pieces_of_joined_texts(line, '\n', rest);
    let parts = split_on(rest, '\n');
    lemma_first_of(rest, '\n');
    assert(parts.len() > 0);
    let all = seq![line] + parts;
    assert(split_on(line + seq!['\n'] + rest, '\n') == all);
    assert(all.last() == parts.last());
    assert(all.drop_last() =~= seq![line] + parts.drop_last());
    assert(line_list(line + seq!['\n'] + rest) =~= seq![without_return(line)] + line_list(rest));
}

/// A comparison is of two revisions where only the revision differs, of two windows where only
/// the window does, and is none where the runs cannot be compared.
pub proof fn comparisons_are_named_by_what_differs(b: RunArtifacts, c: RunArtifacts)
    ensures
        ({
            let window = opt_text(b.provenance.filter_from) == opt_text(c.provenance.filter_from)
                && opt_text(b.provenance.filter_to) == opt_text(c.provenance.filter_to);
            let revision = opt_text(b.provenance.nuclei_revision) == opt_text(
                c.provenance.nuclei_revision,
            );
            let kind = comparison_kind(b, c);
            &&& incomparable(b, c).len() > 0 ==> kind == "not-comparable"@
            &&& incomparable(b, c).len() == 0 && window && !revision ==> kind == "cti-revision"@
            &&& incomparable(b, c).len() == 0 && revision && !window ==> kind == "calendar-window"@
            &&& incomparable(b, c).len() == 0 && window == revision ==> kind == "artifact-diff"@
        }),
{
}

/// A request of the large profile is harmful where the number drawn for it is below the rate of
/// attacks, goes to one of the hosts and comes from one of the sources asked for, and lies less
/// than the width of the window away from its start.
pub proof fn large_requests_follow_their_configuration(
    config: GeneratorConfig,
    id: nat,
    state: u64,
)
    requires
        config.hosts > 0,
        config.source_ips > 0,
        config.duration_ms > 0,
    ensures
        ({
            let e = large_event(config, id, state).0;
            let start = config.start_timestamp_ms as int;
            &&& drawn(state) / 2048 < config.attack_units ==> e.class == TruthClass::Malicious
                && e.rules.len() > 0
            &&& drawn(state) / 2048 >= config.attack_units ==> e.class == TruthClass::Benign
                && e.rules.len() == 0
            &&& exists|h: nat|
                1 <= h <= config.hosts && e.host == "app"@ + #[trigger] decimal(h)
                    + ".synthetic.test"@
            &&& exists|s: nat|
                1 <= s <= config.source_ips && e.source_ip == "203.0.113."@ + #[trigger] decimal(s)
            &&& start - config.duration_ms < e.timestamp < start + config.duration_ms
        }),
{
    let n1 = drawn(state);
    let n2 = drawn(n1);
    let n3 = drawn(n2);
    let n4 = drawn(n3);
    let n5 = drawn(n4);
    let n6 = drawn(n5);
    let last = if n1 / 2048 < config.attack_units {
        n2
    } else if n5 % 4 == 0 {
        n5
    } else {
        n6
    };
    let e = large_event(config, id, state).0;
    let host = (drawn(last) as int % config.hosts as int + 1) as nat;
    let source = (drawn(drawn(last)) as int % config.source_ips as int + 1) as nat;
    assert(e.host == "app"@ + decimal(host) + ".synthetic.test"@);
    assert(e.source_ip == "203.0.113."@ + decimal(source));
}

/// A batch has a candidate for each pattern that findings have, each pattern once, in their
/// order. A candidate counts the findings of its pattern, is for its CVE alone, and claims nothing
/// that was not replayed.
pub proof fn batches_have_each_pattern_once(
    candidates: Seq<DefensiveCandidate>,
    keys: Seq<PatternModel>,
    findings: Seq<FindingExplanation>,
    telemetry: TelemetryProfile,
    i: int,
)
    requires
        is_batch(candidates, keys, findings, telemetry),
        0 <= i < candidates.len(),
        members_of(occurrences(findings, telemetry), keys[i]).len() <= u64::MAX,
    ensures
        candidates.len() == keys.len(),
        texts(candidates[i].cves@) == seq![keys[i].cve],
        candidates[i].evidence.known_threat_findings == members_of(
            occurrences(findings, telemetry),
            keys[i],
        ).len(),
        candidates[i].evidence.known_threat_findings > 0,
        candidates[i].evidence.known_threat_findings_matched == 0,
        candidates[i].evidence.known_threat_findings_missed
            == candidates[i].evidence.known_threat_findings,
        !candidates[i].evidence.replay_completed,
        candidates[i].evidence.threat_coverage is None,
        !candidates[i].kev,
        candidates[i].recommended_action is Count,
        candidates[i].telemetry_profile == telemetry,
        forall|n: int|
            0 <= n < occurrences(findings, telemetry).len() ==> keys.contains(
                (#[trigger] occurrences(findings, telemetry)[n]).0,
            ),
        forall|j: int| 0 <= j < i ==> pattern_before(#[trigger] keys[j], keys[i]),
{
}

/// Numbers of a batch have at least three digits.
pub proof fn short_numbers_are_filled_with_zeros(n: nat)
    ensures
        n < 10 ==> three_digits(n) == seq!['0', '0'] + decimal(n),
        10 <= n < 100 ==> three_digits(n) == seq!['0'] + decimal(n),
        n >= 100 ==> three_digits(n) == decimal(n),
{
    reveal_strlit("00");
    reveal_strlit("0");
    assert("00"@ =~= seq!['0', '0'] && "0"@ =~= seq!['0']);
}

} // verus!
