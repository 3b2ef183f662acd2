//! What holds of conditions and of the candidates that are built from findings.

use crate::candidate::{
    earliest, is_built, latest, methods_at, names_cve, paths_at, patterns_match_exactly, queries_at,
    selected, shared_of, DefensiveCandidate,
};
use crate::condition::{
    absent, holds, leaves, reasons_of, status_of, values_of, values_up_to, Backend,
    DefensiveCondition,
};
use crate::event::{TelemetryProfile, Timestamp, WebEvent};
use crate::export::{is_sensitive, looks_secret};
use crate::finding::FindingExplanation;
use crate::text::{contains_text, lower, occurs_at, opt_text, texts};
use vstd::prelude::*;

verus! {

/// A condition on an attribute holds of an event that has the attribute with the value, of one
/// that has the value somewhere in the attribute, or of one whose attribute starts with it, as
/// the condition asks; none holds of an event without the attribute.
pub proof fn conditions_are_on_their_attributes(value: String, e: WebEvent)
    ensures
        holds(DefensiveCondition::UriEquals { value }, e) == (opt_text(e.uri_path) == Some(value@)),
        holds(DefensiveCondition::QueryEquals { value }, e) == (opt_text(e.uri_query) == Some(
            value@,
        )),
        holds(DefensiveCondition::MethodEquals { value }, e) == (opt_text(e.method) == Some(
            value@,
        )),
        holds(DefensiveCondition::HostEquals { value }, e) == (opt_text(e.host) == Some(value@)),
        holds(DefensiveCondition::Ja3Equals { value }, e) == (opt_text(e.ja3) == Some(value@)),
        holds(DefensiveCondition::Ja4Equals { value }, e) == (opt_text(e.ja4) == Some(value@)),
        holds(DefensiveCondition::UserAgentEquals { value }, e) == (opt_text(e.user_agent) == Some(
            value@,
        )),
        holds(DefensiveCondition::UriContains { value }, e) == (e.uri_path is Some && exists|
            a: Seq<char>,
            b: Seq<char>,
        | e.uri_path.unwrap()@ == #[trigger] (a + value@ + b)),
        holds(DefensiveCondition::QueryContains { value }, e) == (e.uri_query is Some && exists|
            a: Seq<char>,
            b: Seq<char>,
        | e.uri_query.unwrap()@ == #[trigger] (a + value@ + b)),
        holds(DefensiveCondition::UserAgentContains { value }, e) == (e.user_agent is Some
            && exists|a: Seq<char>, b: Seq<char>|
            e.user_agent.unwrap()@ == #[trigger] (a + value@ + b)),
        holds(DefensiveCondition::UriStartsWith { value }, e) == (e.uri_path is Some && exists|
            b: Seq<char>,
        | e.uri_path.unwrap()@ == #[trigger] (value@ + b)),
{
    if e.uri_path is Some {
        a_text_contains_its_parts(e.uri_path.unwrap()@, value@);
    }
    if e.uri_query is Some {
        a_text_contains_its_parts(e.uri_query.unwrap()@, value@);
    }
    if e.user_agent is Some {
        a_text_contains_its_parts(e.user_agent.unwrap()@, value@);
    }
}

/// A text contains another one where it is that one with something before and after it, starts
/// with one where it is that one with something after it, and ends with one where it is that one
/// with something before it.
pub proof fn a_text_contains_its_parts(s: Seq<char>, part: Seq<char>)
    ensures
        contains_text(s, part) == (exists|a: Seq<char>, b: Seq<char>| s == #[trigger] (a + part
            + b)),
        crate::text::starts_with_text(s, part) == (exists|b: Seq<char>| s == #[trigger] (part + b)),
        crate::text::ends_with_text(s, part) == (exists|a: Seq<char>| s == #[trigger] (a + part)),
{
    let n = part.len() as int;
    if contains_text(s, part) {
        let at = choose|at: int| occurs_at(s, part, at);
        assert(s =~= s.take(at) + part + s.skip(at + n));
    }
    if exists|a: Seq<char>, b: Seq<char>| s == #[trigger] (a + part + b) {
        let (a, b) = choose|a: Seq<char>, b: Seq<char>| s == #[trigger] (a + part + b);
        assert(s.subrange(a.len() as int, a.len() + n) =~= part);
        assert(occurs_at(s, part, a.len() as int));
    }
    if crate::text::starts_with_text(s, part) {
        assert(s =~= part + s.skip(n));
    }
    if exists|b: Seq<char>| s == #[trigger] (part + b) {
        let b = choose|b: Seq<char>| s == #[trigger] (part + b);
        assert(s.subrange(0, n) =~= part);
    }
    if crate::text::ends_with_text(s, part) {
        assert(s =~= s.take(s.len() - n) + part);
    }
    if exists|a: Seq<char>| s == #[trigger] (a + part) {
        let a = choose|a: Seq<char>| s == #[trigger] (a + part);
        assert(s.subrange(s.len() - n, s.len() as int) =~= part);
    }
}

/// A condition on a header holds of an event that has a header of that name, whatever the case of
/// its letters, with the value, or with the value somewhere in its own.
pub proof fn header_conditions_are_on_headers(name: String, value: String, e: WebEvent)
    ensures
        holds(DefensiveCondition::HeaderEquals { name, value }, e) == exists|i: int|
            0 <= i < e.headers@.len() && lower((#[trigger] e.headers@[i]).name@) == lower(name@)
                && e.headers@[i].value@ == value@,
        holds(DefensiveCondition::HeaderContains { name, value }, e) == exists|i: int|
            0 <= i < e.headers@.len() && lower((#[trigger] e.headers@[i]).name@) == lower(name@)
                && contains_text(e.headers@[i].value@, value@),
{
    if exists|i: int|
        0 <= i < e.headers@.len() && lower((#[trigger] e.headers@[i]).name@) == lower(name@)
            && e.headers@[i].value@ == value@ {
        let i = choose|i: int|
            0 <= i < e.headers@.len() && lower((#[trigger] e.headers@[i]).name@) == lower(name@)
                && e.headers@[i].value@ == value@;
        assert(crate::condition::named(e.headers@[i], name@));
    }
    if exists|i: int|
        0 <= i < e.headers@.len() && lower((#[trigger] e.headers@[i]).name@) == lower(name@)
            && contains_text(e.headers@[i].value@, value@) {
        let i = choose|i: int|
            0 <= i < e.headers@.len() && lower((#[trigger] e.headers@[i]).name@) == lower(name@)
                && contains_text(e.headers@[i].value@, value@);
        assert(crate::condition::named(e.headers@[i], name@));
    }
}

/// A conjunction holds where it has parts and all of them hold, a disjunction where one does.
pub proof fn joined_conditions_hold_by_their_parts(c: DefensiveCondition, e: WebEvent)
    ensures
        c matches DefensiveCondition::And { conditions } ==> holds(c, e) == (conditions@.len() > 0
            && forall|i: int|
            0 <= i < conditions@.len() ==> holds(#[trigger] conditions@[i], e)),
        c matches DefensiveCondition::Or { conditions } ==> holds(c, e) == exists|i: int|
            0 <= i < conditions@.len() && holds(#[trigger] conditions@[i], e),
{
    if let DefensiveCondition::Or { conditions } = c {
        if exists|i: int| 0 <= i < conditions@.len() && holds(#[trigger] conditions@[i], e) {
            let i = choose|i: int|
                0 <= i < conditions@.len() && holds(#[trigger] conditions@[i], e);
            assert(holds(conditions@[i], e));
            assert(holds(c, e));
        }
    }
}

/// A condition without parts never holds of an event that lacks the attribute it is on.
pub proof fn absent_attributes_meet_no_condition(c: DefensiveCondition, e: WebEvent)
    requires
        !(c is And),
        !(c is Or),
        !(c is Not),
        absent(c, e),
    ensures
        !holds(c, e),
{
}

/// Whether a condition holds a text anywhere: as the value or the name of one of its parts, at
/// any depth.
pub open spec fn mentions(c: DefensiveCondition, text: Seq<char>) -> bool
    decreases c,
{
    match c {
        DefensiveCondition::UriEquals { value } => value@ == text,
        DefensiveCondition::UriContains { value } => value@ == text,
        DefensiveCondition::UriStartsWith { value } => value@ == text,
        DefensiveCondition::QueryEquals { value } => value@ == text,
        DefensiveCondition::QueryContains { value } => value@ == text,
        DefensiveCondition::MethodEquals { value } => value@ == text,
        DefensiveCondition::HostEquals { value } => value@ == text,
        DefensiveCondition::HeaderEquals { name, value } => name@ == text || value@ == text,
        DefensiveCondition::HeaderContains { name, value } => name@ == text || value@ == text,
        DefensiveCondition::Ja3Equals { value } => value@ == text,
        DefensiveCondition::Ja4Equals { value } => value@ == text,
        DefensiveCondition::UserAgentEquals { value } => value@ == text,
        DefensiveCondition::UserAgentContains { value } => value@ == text,
        DefensiveCondition::And { conditions } => exists|i: int|
            0 <= i < conditions@.len() && mentions(#[trigger] conditions@[i], text),
        DefensiveCondition::Or { conditions } => exists|i: int|
            0 <= i < conditions@.len() && mentions(#[trigger] conditions@[i], text),
        DefensiveCondition::Not { condition } => mentions(*condition, text),
    }
}

proof fn lemma_values_up_to(conditions: Vec<DefensiveCondition>, n: nat, text: Seq<char>)
    requires
        n <= conditions@.len(),
    ensures
        values_up_to(conditions, n).contains(text) == exists|i: int|
            0 <= i < n && values_of(#[trigger] conditions@[i]).contains(text),
    decreases n,
{
    if n > 0 {
        lemma_values_up_to(conditions, (n - 1) as nat, text);
        let (a, b) = (
            values_up_to(conditions, (n - 1) as nat),
            values_of(conditions@[n - 1]),
        );
        let all = values_up_to(conditions, n);
        if all.contains(text) {
            let i = all.index_of(text);
            if i < a.len() {
                assert(a[i] == text);
            } else {
                assert(b[i - a.len()] == text);
                assert(b.contains(text));
            }
        }
        if a.contains(text) {
            let i = a.index_of(text);
            assert(all[i] == text);
        }
        if b.contains(text) {
            let i = b.index_of(text);
            assert(all[a.len() + i] == text);
        }
        if exists|i: int| 0 <= i < n && values_of(#[trigger] conditions@[i]).contains(text) {
            let i = choose|i: int|
                0 <= i < n && values_of(#[trigger] conditions@[i]).contains(text);
            if i < n - 1 {
                assert(values_of(conditions@[i]).contains(text));
            }
        }
    } else {
        assert(values_up_to(conditions, n) =~= seq![]);
    }
}

/// Every text that a condition holds is looked at, at any depth, and nothing else is.
pub proof fn every_text_is_looked_at(c: DefensiveCondition, text: Seq<char>)
    ensures
        values_of(c).contains(text) == mentions(c, text),
    decreases c,
{
    match c {
        DefensiveCondition::And { conditions } => {
            lemma_values_up_to(conditions, conditions@.len(), text);
            assert forall|i: int| 0 <= i < conditions@.len() implies values_of(
                #[trigger] conditions@[i],
            ).contains(text) == mentions(conditions@[i], text) by {
                assert(decreases_to!(conditions => conditions@[i]));
                every_text_is_looked_at(conditions@[i], text);
            }
        },
        DefensiveCondition::Or { conditions } => {
            lemma_values_up_to(conditions, conditions@.len(), text);
            assert forall|i: int| 0 <= i < conditions@.len() implies values_of(
                #[trigger] conditions@[i],
            ).contains(text) == mentions(conditions@[i], text) by {
                assert(decreases_to!(conditions => conditions@[i]));
                every_text_is_looked_at(conditions@[i], text);
            }
        },
        DefensiveCondition::Not { condition } => {
            every_text_is_looked_at(*condition, text);
        },
        DefensiveCondition::HeaderEquals { name, value } => {
            assert(values_of(c)[0] == name@);
            assert(values_of(c)[1] == value@);
        },
        DefensiveCondition::HeaderContains { name, value } => {
            assert(values_of(c)[0] == name@);
            assert(values_of(c)[1] == value@);
        },
        _ => {
            assert(values_of(c).len() == 1);
            assert(values_of(c).contains(values_of(c)[0]));
        },
    }
}

/// A candidate whose condition holds, in one of its texts and in whatever case, one of the words
/// for credentials, is refused.
pub proof fn words_for_credentials_are_refused(
    c: DefensiveCondition,
    text: Seq<char>,
    a: Seq<char>,
    word: Seq<char>,
    b: Seq<char>,
)
    requires
        mentions(c, text),
        lower(text) == a + word + b,
        word == "authorization"@ || word == "cookie"@ || word == "token"@ || word == "secret"@
            || word == "api-key"@ || word == "apikey"@ || word == "bearer "@,
    ensures
        is_sensitive(c),
{
    every_text_is_looked_at(c, text);
    a_text_contains_its_parts(lower(text), word);
    let i = values_of(c).index_of(text);
    assert(looks_secret(values_of(c)[i]));
}

/// A condition is fully supported exactly where there is no reason against it, and unsupported
/// where there is one for each of its parts.
pub proof fn a_status_follows_from_the_reasons(reasons: Seq<Seq<char>>, c: DefensiveCondition)
    ensures
        status_of(reasons, c) is FullySupported <==> reasons.len() == 0,
        status_of(reasons, c) is Unsupported <==> reasons.len() > 0 && reasons.len() == leaves(c),
{
}

/// A part on an attribute that the telemetry does not record is a reason against every control,
/// and one on an attribute that it records is none against AWS WAF.
pub proof fn parts_need_recorded_attributes(
    name: String,
    value: String,
    backend: Backend,
    telemetry: TelemetryProfile,
    depth: nat,
)
    requires
        depth <= 3,
    ensures
        ({
            let can = telemetry.records();
            let free = |c: DefensiveCondition| reasons_of(c, backend, telemetry, depth).len() == 0;
            let aws = !(backend is Ossec);
            &&& free(DefensiveCondition::HostEquals { value }) == (aws && can.host)
            &&& free(DefensiveCondition::Ja3Equals { value }) == (aws && can.ja3)
            &&& free(DefensiveCondition::Ja4Equals { value }) == (aws && can.ja4)
            &&& free(DefensiveCondition::HeaderEquals { name, value }) == (aws
                && can.headers is Arbitrary)
            &&& free(DefensiveCondition::HeaderContains { name, value }) == (aws
                && can.headers is Arbitrary)
            &&& free(DefensiveCondition::UserAgentEquals { value }) == can.user_agent
            &&& free(DefensiveCondition::UserAgentContains { value }) == can.user_agent
            &&& free(DefensiveCondition::UriEquals { value })
            &&& free(DefensiveCondition::UriContains { value })
            &&& free(DefensiveCondition::UriStartsWith { value })
            &&& free(DefensiveCondition::QueryEquals { value })
            &&& free(DefensiveCondition::QueryContains { value })
            &&& free(DefensiveCondition::MethodEquals { value })
        }),
{
}

/// AWS WAF refuses a part that lies more than three levels deep, and every control an empty
/// conjunction or disjunction. OSSEC refuses a disjunction and a negation.
pub proof fn some_shapes_are_always_refused(
    c: DefensiveCondition,
    conditions: Vec<DefensiveCondition>,
    condition: Box<DefensiveCondition>,
    backend: Backend,
    telemetry: TelemetryProfile,
    depth: nat,
)
    ensures
        !(backend is Ossec) && depth > 3 ==> reasons_of(c, backend, telemetry, depth).len() > 0,
        conditions@.len() == 0 ==> reasons_of(
            DefensiveCondition::And { conditions },
            backend,
            telemetry,
            depth,
        ).len() > 0 && reasons_of(
            DefensiveCondition::Or { conditions },
            backend,
            telemetry,
            depth,
        ).len() > 0,
        reasons_of(
            DefensiveCondition::Or { conditions },
            Backend::Ossec,
            telemetry,
            depth,
        ).len() > 0,
        reasons_of(
            DefensiveCondition::Not { condition },
            Backend::Ossec,
            telemetry,
            depth,
        ).len() > 0,
{
}

proof fn lemma_selected(findings: Seq<FindingExplanation>, cve: Seq<char>, i: int)
    requires
        findings.len() <= usize::MAX,
    ensures
        forall|k: int|
            0 <= k < selected(findings, cve).len() ==> (#[trigger] selected(findings, cve)[k])
                < findings.len() && names_cve(
                findings[selected(findings, cve)[k] as int],
                cve,
            ),
        0 <= i < findings.len() && names_cve(findings[i], cve) ==> selected(
            findings,
            cve,
        ).contains(i as usize),
    decreases findings.len(),
{
    if findings.len() > 0 {
        let before = findings.drop_last();
        let (a, b) = (selected(before, cve), selected(findings, cve));
        lemma_selected(before, cve, i);
        assert forall|k: int| 0 <= k < b.len() implies (#[trigger] b[k]) < findings.len()
            && names_cve(findings[b[k] as int], cve) by {
            if k < a.len() {
                assert(b[k] == a[k]);
                assert(before[a[k] as int] == findings[a[k] as int]);
            }
        }
        if 0 <= i < findings.len() && names_cve(findings[i], cve) {
            if i < before.len() {
                assert(before[i] == findings[i]);
                let k = a.index_of(i as usize);
                assert(b[k] == i as usize);
            } else {
                assert(b[b.len() - 1] == i as usize);
            }
        }
    }
}

/// A candidate that was built for a CVE is met by the request of every finding that names the
/// CVE: an event with the method, the path and the query of the finding meets its condition.
pub proof fn a_candidate_matches_its_findings(
    c: DefensiveCandidate,
    findings: Vec<FindingExplanation>,
    cve: Seq<char>,
    telemetry: TelemetryProfile,
    kev: bool,
    i: int,
    e: WebEvent,
)
    requires
        is_built(c, findings@, cve, telemetry, kev),
        shared_of(methods_at(findings@, selected(findings@, cve))) is Some,
        shared_of(paths_at(findings@, selected(findings@, cve))) is Some,
        0 <= i < findings@.len(),
        exists|k: int|
            0 <= k < findings@[i].cves@.len() && lower((#[trigger] findings@[i].cves@[k])@)
                == lower(cve),
        opt_text(e.method) == opt_text(findings@[i].method),
        opt_text(e.uri_path) == opt_text(findings@[i].uri_path),
        opt_text(e.uri_query) == opt_text(findings@[i].uri_query),
    ensures
        holds(c.conditions, e),
{
    broadcast use vstd::std_specs::vec::axiom_spec_len;

    let members = selected(findings@, cve);
    assert(findings.len() == findings@.len());
    assert(names_cve(findings@[i], cve));
    lemma_selected(findings@, cve, i);
    let k = members.index_of(i as usize);
    let (m, p, q) = (
        methods_at(findings@, members),
        paths_at(findings@, members),
        queries_at(findings@, members),
    );
    assert(m[k] == opt_text(findings@[i].method));
    assert(p[k] == opt_text(findings@[i].uri_path));
    assert(q[k] == opt_text(findings@[i].uri_query));
    assert(m[k] == m[0] && p[k] == p[0]);
    if shared_of(q) is Some {
        assert(q[k] == q[0]);
    }
    patterns_match_exactly(
        c.conditions,
        shared_of(m).unwrap(),
        shared_of(p).unwrap(),
        shared_of(q),
        e,
    );
}

/// A candidate that was built for a CVE refers to the findings that name it, with their template,
/// their time and their request, and claims to have found as many; no replay is claimed. It is to
/// be counted, not blocked.
pub proof fn a_candidate_claims_its_findings(
    c: DefensiveCandidate,
    findings: Vec<FindingExplanation>,
    cve: Seq<char>,
    telemetry: TelemetryProfile,
    kev: bool,
    i: int,
)
    requires
        is_built(c, findings@, cve, telemetry, kev),
    ensures
        c.evidence.known_threat_findings == c.source_findings@.len(),
        c.evidence.known_threat_findings_matched == c.source_findings@.len(),
        c.evidence.known_threat_findings_missed == 0,
        c.evidence.historical_requests_evaluated == 0,
        c.evidence.other_historical_matches == 0,
        !c.evidence.replay_completed,
        texts(c.cves@) == seq![cve],
        c.kev == kev,
        c.telemetry_profile == telemetry,
        0 <= i < c.source_findings@.len() ==> exists|k: int|
            0 <= k < findings@.len() && names_cve(#[trigger] findings@[k], cve)
                && c.source_findings@[i].template_id@ == findings@[k].template_id@ && opt_text(
                c.source_findings@[i].timestamp,
            ) == opt_text(findings@[k].timestamp) && opt_text(c.source_findings@[i].request_id)
                == opt_text(findings@[k].request_id),
        0 <= i < findings@.len() && names_cve(findings@[i], cve) ==> exists|k: int|
            0 <= k < c.source_findings@.len() && (#[trigger] c.source_findings@[k]).template_id@
                == findings@[i].template_id@ && opt_text(c.source_findings@[k].request_id)
                == opt_text(findings@[i].request_id),
{
    broadcast use vstd::std_specs::vec::axiom_spec_len;

    let members = selected(findings@, cve);
    assert(findings.len() == findings@.len());
    assert(c.source_findings.len() == c.source_findings@.len());
    lemma_selected(findings@, cve, i);
    if 0 <= i < c.source_findings@.len() {
        let k = members[i] as int;
        assert(crate::candidate::is_reference(c.source_findings@[i], findings@[k]));
        assert(names_cve(findings@[k], cve));
    }
    if 0 <= i < findings@.len() && names_cve(findings@[i], cve) {
        let k = members.index_of(i as usize);
        assert(crate::candidate::is_reference(
            c.source_findings@[k],
            findings@[members[k] as int],
        ));
    }
}

/// The first time is one of those that are known, and no known time lies before it; the last one
/// is one of them too, and none lies after it. Either is missing only where no time is known.
pub proof fn seen_times_bound_the_others(times: Seq<Option<Timestamp>>, i: int)
    ensures
        earliest(times) is None <==> forall|k: int|
            0 <= k < times.len() ==> (#[trigger] times[k]) is None,
        latest(times) is None <==> earliest(times) is None,
        earliest(times) is Some ==> times.contains(earliest(times)),
        latest(times) is Some ==> times.contains(latest(times)),
        0 <= i < times.len() && times[i] is Some ==> earliest(times) is Some
            && !times[i].unwrap().before(earliest(times).unwrap()) && latest(times) is Some
            && !latest(times).unwrap().before(times[i].unwrap()),
    decreases times.len(),
{
    if times.len() > 0 {
        let before = times.drop_last();
        seen_times_bound_the_others(before, i);
        assert(times[times.len() - 1] == times.last());
        if before.contains(earliest(before)) {
            let k = before.index_of(earliest(before));
            assert(times[k] == earliest(before));
        }
        if before.contains(latest(before)) {
            let k = before.index_of(latest(before));
            assert(times[k] == latest(before));
        }
        assert forall|k: int| 0 <= k < before.len() implies before[k] == times[k] by {}
        if earliest(times) is None {
            assert forall|k: int| 0 <= k < times.len() implies (#[trigger] times[k]) is None by {
                if k < before.len() {
                    assert(before[k] is None);
                }
            }
        }
        if forall|k: int| 0 <= k < times.len() ==> (#[trigger] times[k]) is None {
            assert forall|k: int| 0 <= k < before.len() implies (#[trigger] before[k]) is None by {
                assert(times[k] is None);
            }
        }
        if 0 <= i < before.len() {
            assert(before[i] == times[i]);
        }
        crate::candidate::seen_range_is_ordered(before);
    }
}

} // verus!
