//! Defensive candidates: narrow request patterns built from private findings, and their replay
//! against historical traffic.

use crate::condition::{
    condition_compatibility, holds, is_compatibility, Backend, CompatibilityReport,
    DefensiveCondition,
};
use crate::event::{TelemetryProfile, Timestamp, WebEvent};
use crate::finding::FindingExplanation;
use crate::numbers::Ratio;
use crate::ordered::TextSet;
use crate::text::{
    ascii_lowercase, ascii_uppercase, compare_text, decimal, lower, opt_text, push_decimal,
    same_text, text_before, text_order_is_total, text_order_is_transitive, texts, trim, trim_text,
    upper, TextOrder,
};
use vstd::prelude::*;
use vstd::string::*;

verus! {

broadcast use vstd::string::group_string_axioms;

#[derive(Clone, Debug)]
pub struct FindingReference {
    pub template_id: String,
    pub timestamp: Option<String>,
    pub request_id: Option<String>,
}

#[derive(Clone, Copy, Debug, PartialEq, Eq, Structural)]
pub struct CandidateEvidence {
    pub historical_requests_evaluated: u64,
    pub known_threat_findings: u64,
    pub known_threat_findings_matched: u64,
    pub known_threat_findings_missed: u64,
    pub other_historical_matches: u64,
    pub threat_coverage: Option<Ratio>,
    pub first_seen: Option<Timestamp>,
    pub last_seen: Option<Timestamp>,
    pub replay_completed: bool,
}

#[derive(Clone, Copy, Debug, PartialEq, Eq, Structural)]
pub enum RecommendedAction {
    Count,
}

#[derive(Debug)]
pub struct DefensiveCandidate {
    pub schema_version: u8,
    pub id: String,
    pub conditions: DefensiveCondition,
    pub source_findings: Vec<FindingReference>,
    pub cves: Vec<String>,
    pub kev: bool,
    pub evidence: CandidateEvidence,
    pub recommended_action: RecommendedAction,
    pub telemetry_profile: TelemetryProfile,
    pub generation_version: String,
}

/// The point in time that an RFC 3339 text stands for, as seconds and nanoseconds.
pub uninterp spec fn instant_from_rfc3339(text: Seq<char>) -> Option<(i64, u32)>;

/// Reads a time with `chrono::DateTime::parse_from_rfc3339`. The result is a function of the
/// text.
#[verifier::external_body]
pub(crate) fn read_rfc3339(text: &str) -> (r: Option<(i64, u32)>)
    ensures
        r == instant_from_rfc3339(text@),
{
    let instant = chrono::DateTime::parse_from_rfc3339(text).ok()?;
    Some((instant.timestamp(), instant.timestamp_subsec_nanos()))
}

/// The point in time that the text of an optional timestamp stands for.
pub open spec fn time_of(text: Option<Seq<char>>) -> Option<Timestamp> {
    match text {
        Some(t) => match instant_from_rfc3339(t) {
            Some(p) => Some(Timestamp { seconds: p.0, nanos: p.1 }),
            None => None,
        },
        None => None,
    }
}

pub fn read_time(text: &Option<String>) -> (r: Option<Timestamp>)
    ensures
        r == time_of(opt_text(*text)),
{
    match text {
        Some(t) => match read_rfc3339(t.as_str()) {
            Some(p) => Some(Timestamp { seconds: p.0, nanos: p.1 }),
            None => None,
        },
        None => None,
    }
}

/// The earliest of the times that are known.
pub open spec fn earliest(times: Seq<Option<Timestamp>>) -> Option<Timestamp>
    decreases times.len(),
{
    if times.len() == 0 {
        None
    } else {
        match (earliest(times.drop_last()), times.last()) {
            (Some(a), Some(b)) => if b.before(a) {
                Some(b)
            } else {
                Some(a)
            },
            (Some(a), None) => Some(a),
            (None, b) => b,
        }
    }
}

/// The latest of the times that are known.
pub open spec fn latest(times: Seq<Option<Timestamp>>) -> Option<Timestamp>
    decreases times.len(),
{
    if times.len() == 0 {
        None
    } else {
        match (latest(times.drop_last()), times.last()) {
            (Some(a), Some(b)) => if a.before(b) {
                Some(b)
            } else {
                Some(a)
            },
            (Some(a), None) => Some(a),
            (None, b) => b,
        }
    }
}

/// The first and the last of the times that are known.
pub fn seen_range(times: &Vec<Option<Timestamp>>) -> (r: (Option<Timestamp>, Option<Timestamp>))
    ensures
        r.0 == earliest(times@),
        r.1 == latest(times@),
{
    let mut first: Option<Timestamp> = None;
    let mut last: Option<Timestamp> = None;
    let mut i: usize = 0;
    while i < times.len()
        invariant
            i <= times@.len(),
            first == earliest(times@.take(i as int)),
            last == latest(times@.take(i as int)),
        decreases times.len() - i,
    {
        proof {
            assert(times@.take(i + 1).drop_last() =~= times@.take(i as int));
        }
        if let Some(time) = times[i] {
            first = match first {
                Some(a) => if time.is_before(&a) {
                    Some(time)
                } else {
                    Some(a)
                },
                None => Some(time),
            };
            last = match last {
                Some(a) => if a.is_before(&time) {
                    Some(time)
                } else {
                    Some(a)
                },
                None => Some(time),
            };
        }
        i = i + 1;
    }
    assert(times@.take(i as int) =~= times@);
    (first, last)
}

/// The first time is known exactly when the last one is, and is not after it.
pub proof fn seen_range_is_ordered(times: Seq<Option<Timestamp>>)
    ensures
        earliest(times) is Some == latest(times) is Some,
        earliest(times) is Some ==> !latest(times).unwrap().before(earliest(times).unwrap()),
    decreases times.len(),
{
    if times.len() > 0 {
        seen_range_is_ordered(times.drop_last());
    }
}

/// The value that all entries of a list share, where they share one.
pub open spec fn shared_of(values: Seq<Option<Seq<char>>>) -> Option<Seq<char>> {
    if values.len() > 0 && values[0] is Some && (forall|i: int|
        0 <= i < values.len() ==> #[trigger] values[i] == values[0]) {
        values[0]
    } else {
        None
    }
}

pub open spec fn opt_texts(values: Seq<Option<String>>) -> Seq<Option<Seq<char>>> {
    values.map_values(|v: Option<String>| opt_text(v))
}

fn shared(values: &Vec<Option<String>>) -> (r: Option<String>)
    ensures
        opt_text(r) == shared_of(opt_texts(values@)),
{
    let ghost all = opt_texts(values@);
    if values.len() == 0 {
        return None;
    }
    let first = match &values[0] {
        Some(first) => first.clone(),
        None => {
            assert(all[0] is None);
            return None;
        },
    };
    assert(all[0] == Some(first@));
    let mut i: usize = 1;
    while i < values.len()
        invariant
            1 <= i <= values@.len(),
            all == opt_texts(values@),
            all[0] == Some(first@),
            forall|j: int| 0 <= j < i ==> #[trigger] all[j] == all[0],
        decreases values.len() - i,
    {
        match &values[i] {
            Some(text) => {
                assert(all[i as int] == Some(text@));
                if !same_text(text.as_str(), first.as_str()) {
                    return None;
                }
            },
            None => {
                assert(all[i as int] is None);
                return None;
            },
        }
        i = i + 1;
    }
    Some(first)
}

/// Whether a condition is a narrow request pattern: the method, the path and, where there is one,
/// the query, each exactly.
pub open spec fn is_pattern(
    c: DefensiveCondition,
    method: Seq<char>,
    path: Seq<char>,
    query: Option<Seq<char>>,
) -> bool {
    c matches DefensiveCondition::And { conditions } && {
        &&& conditions@.len() == if query is Some {
            3int
        } else {
            2int
        }
        &&& conditions@[0] matches DefensiveCondition::MethodEquals { value } && value@ == method
        &&& conditions@[1] matches DefensiveCondition::UriEquals { value } && value@ == path
        &&& query matches Some(q) ==> (conditions@[2] matches DefensiveCondition::QueryEquals {
            value,
        } && value@ == q)
    }
}

fn pattern(method: String, path: String, query: Option<String>) -> (r: DefensiveCondition)
    ensures
        is_pattern(r, method@, path@, opt_text(query)),
{
    let mut conditions: Vec<DefensiveCondition> = Vec::new();
    conditions.push(DefensiveCondition::MethodEquals { value: method });
    conditions.push(DefensiveCondition::UriEquals { value: path });
    if let Some(value) = query {
        conditions.push(DefensiveCondition::QueryEquals { value });
    }
    DefensiveCondition::And { conditions }
}

/// A request pattern matches exactly the requests with its method, its path and, where it has
/// one, its query.
pub proof fn patterns_match_exactly(
    c: DefensiveCondition,
    method: Seq<char>,
    path: Seq<char>,
    query: Option<Seq<char>>,
    e: WebEvent,
)
    requires
        is_pattern(c, method, path, query),
    ensures
        holds(c, e) == (opt_text(e.method) == Some(method) && opt_text(e.uri_path) == Some(path) && (
        query is Some ==> opt_text(e.uri_query) == query)),
{
    let conditions = c->And_conditions;
    reveal_with_fuel(holds, 2);
    assert(holds(conditions@[0], e) == (opt_text(e.method) == Some(method)));
    assert(holds(conditions@[1], e) == (opt_text(e.uri_path) == Some(path)));
    if query is Some {
        assert(holds(conditions@[2], e) == (opt_text(e.uri_query) == query));
    }
    if opt_text(e.method) == Some(method) && opt_text(e.uri_path) == Some(path) && (query is Some
        ==> opt_text(e.uri_query) == query) {
        assert forall|i: int| 0 <= i < conditions@.len() implies holds(
            #[trigger] conditions@[i],
            e,
        ) by {
            assert(i == 0 || i == 1 || i == 2);
        }
    }
}

/// Whether a reference names a finding.
pub open spec fn is_reference(r: FindingReference, f: FindingExplanation) -> bool {
    &&& r.template_id@ == f.template_id@
    &&& opt_text(r.timestamp) == opt_text(f.timestamp)
    &&& opt_text(r.request_id) == opt_text(f.request_id)
}

fn copied(value: &Option<String>) -> (r: Option<String>)
    ensures
        r == *value,
{
    match value {
        Some(v) => Some(v.clone()),
        None => None,
    }
}

/// References to the findings at the given positions.
fn references(findings: &Vec<FindingExplanation>, members: &Vec<usize>) -> (r: Vec<
    FindingReference,
>)
    requires
        forall|i: int| 0 <= i < members@.len() ==> (#[trigger] members@[i]) < findings@.len(),
    ensures
        r@.len() == members@.len(),
        forall|i: int|
            0 <= i < r@.len() ==> is_reference(
                #[trigger] r@[i],
                findings@[members@[i] as int],
            ),
{
    let mut r: Vec<FindingReference> = Vec::new();
    let mut i: usize = 0;
    while i < members.len()
        invariant
            i <= members@.len(),
            r@.len() == i,
            forall|i: int| 0 <= i < members@.len() ==> (#[trigger] members@[i]) < findings@.len(),
            forall|j: int|
                0 <= j < i ==> is_reference(#[trigger] r@[j], findings@[members@[j] as int]),
        decreases members.len() - i,
    {
        assert(members@[i as int] < findings@.len());
        let finding = &findings[members[i]];
        r.push(
            FindingReference {
                template_id: finding.template_id.clone(),
                timestamp: copied(&finding.timestamp),
                request_id: copied(&finding.request_id),
            },
        );
        i = i + 1;
    }
    r
}

/// The times of the findings at the given positions.
pub open spec fn times_at(findings: Seq<FindingExplanation>, members: Seq<usize>) -> Seq<
    Option<Timestamp>,
> {
    members.map_values(|m: usize| time_of(opt_text(findings[m as int].timestamp)))
}

fn times_of(findings: &Vec<FindingExplanation>, members: &Vec<usize>) -> (r: Vec<
    Option<Timestamp>,
>)
    requires
        forall|i: int| 0 <= i < members@.len() ==> (#[trigger] members@[i]) < findings@.len(),
    ensures
        r@ == times_at(findings@, members@),
{
    let mut r: Vec<Option<Timestamp>> = Vec::new();
    let mut i: usize = 0;
    while i < members.len()
        invariant
            i <= members@.len(),
            r@.len() == i,
            forall|i: int| 0 <= i < members@.len() ==> (#[trigger] members@[i]) < findings@.len(),
            forall|j: int| 0 <= j < i ==> #[trigger] r@[j] == times_at(findings@, members@)[j],
        decreases members.len() - i,
    {
        assert(members@[i as int] < findings@.len());
        r.push(read_time(&findings[members[i]].timestamp));
        i = i + 1;
    }
    assert(r@ =~= times_at(findings@, members@));
    r
}

/// Whether a finding names a CVE, whatever the ASCII case.
pub open spec fn names_cve(f: FindingExplanation, cve: Seq<char>) -> bool {
    exists|i: int| 0 <= i < f.cves@.len() && lower((#[trigger] f.cves@[i])@) == lower(cve)
}

fn refers_to(finding: &FindingExplanation, cve: &str) -> (r: bool)
    ensures
        r == names_cve(*finding, cve@),
{
    let wanted = ascii_lowercase(cve);
    let mut i: usize = 0;
    while i < finding.cves.len()
        invariant
            wanted@ == lower(cve@),
            i <= finding.cves@.len(),
            forall|j: int| 0 <= j < i ==> lower((#[trigger] finding.cves@[j])@) != lower(cve@),
        decreases finding.cves.len() - i,
    {
        let value = ascii_lowercase(finding.cves[i].as_str());
        if same_text(value.as_str(), wanted.as_str()) {
            assert(lower(finding.cves@[i as int]@) == lower(cve@));
            return true;
        }
        i = i + 1;
    }
    false
}

/// The positions of the findings that name a CVE, in their order.
pub open spec fn selected(findings: Seq<FindingExplanation>, cve: Seq<char>) -> Seq<usize>
    decreases findings.len(),
{
    if findings.len() == 0 {
        seq![]
    } else {
        let before = selected(findings.drop_last(), cve);
        if names_cve(findings.last(), cve) {
            before.push((findings.len() - 1) as usize)
        } else {
            before
        }
    }
}

pub open spec fn methods_at(findings: Seq<FindingExplanation>, members: Seq<usize>) -> Seq<
    Option<Seq<char>>,
> {
    members.map_values(|m: usize| opt_text(findings[m as int].method))
}

pub open spec fn paths_at(findings: Seq<FindingExplanation>, members: Seq<usize>) -> Seq<
    Option<Seq<char>>,
> {
    members.map_values(|m: usize| opt_text(findings[m as int].uri_path))
}

pub open spec fn queries_at(findings: Seq<FindingExplanation>, members: Seq<usize>) -> Seq<
    Option<Seq<char>>,
> {
    members.map_values(|m: usize| opt_text(findings[m as int].uri_query))
}

/// Why no candidate was built.
#[derive(Clone, Debug)]
pub enum BuildError {
    NoFindings { cve: String },
    MethodNotShared,
    PathNotShared,
}

impl BuildError {
    pub fn message(&self) -> (r: String)
        ensures
            r@ == match self {
                BuildError::NoFindings { cve } => "no private findings reference "@ + cve@,
                BuildError::MethodNotShared =>
                    "candidate build refused: selected findings do not share one method"@,
                BuildError::PathNotShared =>
                    "candidate build refused: selected findings do not share one URI path"@,
            },
    {
        match self {
            BuildError::NoFindings { cve } => {
                let mut text = "no private findings reference ".to_owned();
                text.append(cve.as_str());
                text
            },
            BuildError::MethodNotShared =>
                "candidate build refused: selected findings do not share one method".to_owned(),
            BuildError::PathNotShared =>
                "candidate build refused: selected findings do not share one URI path".to_owned(),
        }
    }
}

/// Whether the references of a candidate name the findings at the given positions.
pub open spec fn references_are(
    r: Seq<FindingReference>,
    findings: Seq<FindingExplanation>,
    members: Seq<usize>,
) -> bool {
    &&& r.len() == members.len()
    &&& forall|i: int|
        0 <= i < r.len() ==> is_reference(#[trigger] r[i], findings[members[i] as int])
}

/// Whether a candidate is the one that the findings for a CVE give. Its evidence claims the
/// findings it was built from, and no replay.
pub open spec fn is_built(
    c: DefensiveCandidate,
    findings: Seq<FindingExplanation>,
    cve: Seq<char>,
    telemetry: TelemetryProfile,
    kev: bool,
) -> bool {
    let members = selected(findings, cve);
    &&& c.schema_version == 1
    &&& c.id@ == "shenron-"@ + lower(cve)
    &&& is_pattern(
        c.conditions,
        shared_of(methods_at(findings, members)).unwrap(),
        shared_of(paths_at(findings, members)).unwrap(),
        shared_of(queries_at(findings, members)),
    )
    &&& references_are(c.source_findings@, findings, members)
    &&& texts(c.cves@) == seq![cve]
    &&& c.kev == kev
    &&& c.evidence == (CandidateEvidence {
        historical_requests_evaluated: 0,
        known_threat_findings: members.len() as u64,
        known_threat_findings_matched: members.len() as u64,
        known_threat_findings_missed: 0,
        other_historical_matches: 0,
        threat_coverage: Some(Ratio { numerator: 1, denominator: 1 }),
        first_seen: earliest(times_at(findings, members)),
        last_seen: latest(times_at(findings, members)),
        replay_completed: false,
    })
    &&& c.recommended_action is Count
    &&& c.telemetry_profile == telemetry
    &&& c.generation_version@ == "shenron-candidate-build-v1"@
}

/// Builds one candidate from the findings that name a CVE: refused unless they share one method
/// and one path. A query that they share narrows it.
pub fn build_from_findings(
    findings: &Vec<FindingExplanation>,
    cve: &str,
    telemetry_profile: TelemetryProfile,
    kev: bool,
) -> (r: Result<DefensiveCandidate, BuildError>)
    ensures
        ({
            let name = upper(trim_text(cve@));
            let members = selected(findings@, name);
            match r {
                Ok(c) => {
                    &&& members.len() > 0
                    &&& shared_of(methods_at(findings@, members)) is Some
                    &&& shared_of(paths_at(findings@, members)) is Some
                    &&& is_built(c, findings@, name, telemetry_profile, kev)
                },
                Err(BuildError::NoFindings { cve: missing }) => members.len() == 0 && missing@
                    == name,
                Err(BuildError::MethodNotShared) => members.len() > 0 && shared_of(
                    methods_at(findings@, members),
                ) is None,
                Err(BuildError::PathNotShared) => members.len() > 0 && shared_of(
                    methods_at(findings@, members),
                ) is Some && shared_of(paths_at(findings@, members)) is None,
            }
        }),
{
    let name = ascii_uppercase(trim(cve).as_str());
    let mut members: Vec<usize> = Vec::new();
    let mut methods: Vec<Option<String>> = Vec::new();
    let mut paths: Vec<Option<String>> = Vec::new();
    let mut queries: Vec<Option<String>> = Vec::new();
    let mut i: usize = 0;
    while i < findings.len()
        invariant
            i <= findings@.len(),
            members@ == selected(findings@.take(i as int), name@),
            forall|j: int| 0 <= j < members@.len() ==> (#[trigger] members@[j]) < i,
            opt_texts(methods@) == methods_at(findings@, members@),
            opt_texts(paths@) == paths_at(findings@, members@),
            opt_texts(queries@) == queries_at(findings@, members@),
        decreases findings.len() - i,
    {
        proof {
            assert(findings@.take(i + 1).drop_last() =~= findings@.take(i as int));
            assert(findings@.take(i + 1).last() == findings@[i as int]);
        }
        if refers_to(&findings[i], name.as_str()) {
            let ghost before = members@;
            members.push(i);
            let ghost (m0, p0, q0) = (methods@, paths@, queries@);
            methods.push(copied(&findings[i].method));
            paths.push(copied(&findings[i].uri_path));
            queries.push(copied(&findings[i].uri_query));
            proof {
                assert(opt_texts(methods@) =~= opt_texts(m0).push(
                    opt_text(findings@[i as int].method),
                ));
                assert(opt_texts(paths@) =~= opt_texts(p0).push(
                    opt_text(findings@[i as int].uri_path),
                ));
                assert(opt_texts(queries@) =~= opt_texts(q0).push(
                    opt_text(findings@[i as int].uri_query),
                ));
                assert(methods_at(findings@, members@) =~= methods_at(findings@, before).push(
                    opt_text(findings@[i as int].method),
                ));
                assert(paths_at(findings@, members@) =~= paths_at(findings@, before).push(
                    opt_text(findings@[i as int].uri_path),
                ));
                assert(queries_at(findings@, members@) =~= queries_at(findings@, before).push(
                    opt_text(findings@[i as int].uri_query),
                ));
            }
        }
        i = i + 1;
    }
    assert(findings@.take(i as int) =~= findings@);
    if members.len() == 0 {
        return Err(BuildError::NoFindings { cve: name });
    }
    let method = match shared(&methods) {
        Some(method) => method,
        None => {
            return Err(BuildError::MethodNotShared);
        },
    };
    let path = match shared(&paths) {
        Some(path) => path,
        None => {
            return Err(BuildError::PathNotShared);
        },
    };
    let query = shared(&queries);
    let (first_seen, last_seen) = seen_range(&times_of(findings, &members));
    let known = members.len() as u64;
    let mut id = "shenron-".to_owned();
    id.append(ascii_lowercase(name.as_str()).as_str());
    let mut cves: Vec<String> = Vec::new();
    cves.push(name.clone());
    assert(texts(cves@) =~= seq![name@]);
    Ok(
        DefensiveCandidate {
            schema_version: 1,
            id,
            conditions: pattern(method, path, query),
            source_findings: references(findings, &members),
            cves,
            kev,
            evidence: CandidateEvidence {
                historical_requests_evaluated: 0,
                known_threat_findings: known,
                known_threat_findings_matched: known,
                known_threat_findings_missed: 0,
                other_historical_matches: 0,
                threat_coverage: Some(Ratio { numerator: 1, denominator: 1 }),
                first_seen,
                last_seen,
                replay_completed: false,
            },
            recommended_action: RecommendedAction::Count,
            telemetry_profile,
            generation_version: "shenron-candidate-build-v1".to_owned(),
        },
    )
}

#[derive(Clone, Copy, Debug, PartialEq, Eq, Structural)]
pub struct BatchBuildStats {
    pub candidates: usize,
    pub excluded_blocked_findings: usize,
    pub skipped_incomplete_findings: usize,
}

/// A CVE and an exact request pattern.
pub struct PatternModel {
    pub cve: Seq<char>,
    pub method: Seq<char>,
    pub path: Seq<char>,
    pub query: Option<Seq<char>>,
}

struct PatternKey {
    cve: String,
    method: String,
    path: String,
    query: Option<String>,
}

impl View for PatternKey {
    type V = PatternModel;

    closed spec fn view(&self) -> PatternModel {
        PatternModel {
            cve: self.cve@,
            method: self.method@,
            path: self.path@,
            query: opt_text(self.query),
        }
    }
}

pub open spec fn query_before(a: Option<Seq<char>>, b: Option<Seq<char>>) -> bool {
    match (a, b) {
        (None, Some(_)) => true,
        (Some(x), Some(y)) => text_before(x, y),
        _ => false,
    }
}

/// Patterns are ordered by CVE, then method, then path, then query, no query first.
pub open spec fn pattern_before(a: PatternModel, b: PatternModel) -> bool {
    if a.cve != b.cve {
        text_before(a.cve, b.cve)
    } else if a.method != b.method {
        text_before(a.method, b.method)
    } else if a.path != b.path {
        text_before(a.path, b.path)
    } else {
        query_before(a.query, b.query)
    }
}

proof fn lemma_query_order(a: Option<Seq<char>>, b: Option<Seq<char>>, c: Option<Seq<char>>)
    ensures
        !query_before(a, a),
        a == b || query_before(a, b) || query_before(b, a),
        query_before(a, b) && query_before(b, c) ==> query_before(a, c),
{
    if a is Some {
        text_order_is_total(a.unwrap(), a.unwrap());
        if b is Some {
            text_order_is_total(a.unwrap(), b.unwrap());
            if c is Some && query_before(a, b) && query_before(b, c) {
                text_order_is_transitive(a.unwrap(), b.unwrap(), c.unwrap());
            }
        }
    }
}

proof fn lemma_part_order(a: Seq<char>, b: Seq<char>, c: Seq<char>)
    ensures
        !text_before(a, a),
        a == b || text_before(a, b) || text_before(b, a),
        !(text_before(a, b) && text_before(b, a)),
        text_before(a, b) && text_before(b, c) ==> text_before(a, c),
{
    text_order_is_total(a, b);
    if text_before(a, b) && text_before(b, c) {
        text_order_is_transitive(a, b, c);
    }
}

/// The order on patterns is a strict total order.
proof fn lemma_pattern_order(a: PatternModel, b: PatternModel, c: PatternModel)
    ensures
        !pattern_before(a, a),
        a == b || pattern_before(a, b) || pattern_before(b, a),
        pattern_before(a, b) && pattern_before(b, c) ==> pattern_before(a, c),
{
    lemma_part_order(a.cve, b.cve, c.cve);
    lemma_part_order(a.method, b.method, c.method);
    lemma_part_order(a.path, b.path, c.path);
    lemma_part_order(b.cve, c.cve, a.cve);
    lemma_part_order(b.method, c.method, a.method);
    lemma_part_order(b.path, c.path, a.path);
    lemma_query_order(a.query, b.query, c.query);
}

fn compare_queries(a: &Option<String>, b: &Option<String>) -> (r: TextOrder)
    ensures
        r is Before == query_before(opt_text(*a), opt_text(*b)),
        r is Same == (opt_text(*a) == opt_text(*b)),
{
    match (a, b) {
        (None, None) => TextOrder::Same,
        (None, Some(_)) => TextOrder::Before,
        (Some(_), None) => TextOrder::After,
        (Some(x), Some(y)) => compare_text(x.as_str(), y.as_str()),
    }
}

fn compare_patterns(a: &PatternKey, b: &PatternKey) -> (r: TextOrder)
    ensures
        r is Before == pattern_before(a@, b@),
        r is Same == (a@ == b@),
{
    match compare_text(a.cve.as_str(), b.cve.as_str()) {
        TextOrder::Same => {},
        other => {
            return other;
        },
    }
    match compare_text(a.method.as_str(), b.method.as_str()) {
        TextOrder::Same => {},
        other => {
            return other;
        },
    }
    match compare_text(a.path.as_str(), b.path.as_str()) {
        TextOrder::Same => {},
        other => {
            return other;
        },
    }
    compare_queries(&a.query, &b.query)
}

/// A finding whose request a WAF already blocked.
pub open spec fn blocked(f: FindingExplanation, telemetry: TelemetryProfile) -> bool {
    telemetry is AwsWaf && f.waf_action is Some && lower(f.waf_action.unwrap()@) == lower("BLOCK"@)
}

pub open spec fn complete(f: FindingExplanation) -> bool {
    f.method is Some && f.uri_path is Some
}

/// The pattern of a finding for one of its CVEs.
pub open spec fn pattern_of(f: FindingExplanation, cve: Seq<char>) -> PatternModel {
    PatternModel {
        cve: upper(trim_text(cve)),
        method: f.method.unwrap()@,
        path: f.uri_path.unwrap()@,
        query: opt_text(f.uri_query),
    }
}

/// The patterns of a finding, one for each CVE it names.
pub open spec fn own_patterns(f: FindingExplanation, at: usize) -> Seq<(PatternModel, usize)> {
    f.cves@.map_values(|cve: String| (pattern_of(f, cve@), at))
}

/// Every pattern with the position of the finding it comes from, in the order of the findings.
/// Findings that were blocked or lack a method or a path give none.
pub open spec fn occurrences(
    findings: Seq<FindingExplanation>,
    telemetry: TelemetryProfile,
) -> Seq<(PatternModel, usize)>
    decreases findings.len(),
{
    if findings.len() == 0 {
        seq![]
    } else {
        let before = occurrences(findings.drop_last(), telemetry);
        let f = findings.last();
        if blocked(f, telemetry) || !complete(f) {
            before
        } else {
            before + own_patterns(f, (findings.len() - 1) as usize)
        }
    }
}

pub open spec fn count_blocked(
    findings: Seq<FindingExplanation>,
    telemetry: TelemetryProfile,
) -> nat
    decreases findings.len(),
{
    if findings.len() == 0 {
        0
    } else {
        count_blocked(findings.drop_last(), telemetry) + if blocked(findings.last(), telemetry) {
            1nat
        } else {
            0nat
        }
    }
}

pub open spec fn count_incomplete(
    findings: Seq<FindingExplanation>,
    telemetry: TelemetryProfile,
) -> nat
    decreases findings.len(),
{
    if findings.len() == 0 {
        0
    } else {
        count_incomplete(findings.drop_last(), telemetry) + if !blocked(findings.last(), telemetry)
            && !complete(findings.last()) {
            1nat
        } else {
            0nat
        }
    }
}

/// The positions of the findings with a pattern, in their order.
pub open spec fn members_of(list: Seq<(PatternModel, usize)>, key: PatternModel) -> Seq<usize>
    decreases list.len(),
{
    if list.len() == 0 {
        seq![]
    } else if list.last().0 == key {
        members_of(list.drop_last(), key).push(list.last().1)
    } else {
        members_of(list.drop_last(), key)
    }
}

proof fn lemma_no_members(list: Seq<(PatternModel, usize)>, key: PatternModel)
    requires
        forall|i: int| 0 <= i < list.len() ==> (#[trigger] list[i]).0 != key,
    ensures
        members_of(list, key).len() == 0,
    decreases list.len(),
{
    if list.len() > 0 {
        assert(list[list.len() - 1] == list.last());
        assert forall|i: int| 0 <= i < list.drop_last().len() implies (#[trigger] list.drop_last()[i]).0
            != key by {
            assert(list.drop_last()[i] == list[i]);
        }
        lemma_no_members(list.drop_last(), key);
    }
}

struct PatternGroup {
    key: PatternKey,
    members: Vec<usize>,
}

/// Whether groups stand in the order of their patterns, hold the members of their patterns, and
/// cover every pattern of a list.
spec fn is_grouping(groups: Seq<PatternGroup>, list: Seq<(PatternModel, usize)>) -> bool {
    &&& forall|i: int, j: int|
        0 <= i < j < groups.len() ==> pattern_before(
            (#[trigger] groups[i]).key@,
            (#[trigger] groups[j]).key@,
        )
    &&& forall|i: int|
        0 <= i < groups.len() ==> (#[trigger] groups[i]).members@ == members_of(
            list,
            groups[i].key@,
        ) && groups[i].members@.len() > 0
    &&& forall|n: int| 0 <= n < list.len() ==> has_group(groups, (#[trigger] list[n]).0)
}

spec fn has_group(groups: Seq<PatternGroup>, key: PatternModel) -> bool {
    exists|i: int| 0 <= i < groups.len() && (#[trigger] groups[i]).key@ == key
}

/// Adds one occurrence of a pattern to its group.
fn add_member(groups: &mut Vec<PatternGroup>, key: PatternKey, at: usize, list: Ghost<
    Seq<(PatternModel, usize)>,
>)
    requires
        is_grouping(old(groups)@, list@),
    ensures
        is_grouping(final(groups)@, list@.push((key@, at))),
{
    let ghost before = groups@;
    let ghost k = key@;
    let ghost after = list@.push((k, at));
    assert(after.drop_last() =~= list@);
    let mut p: usize = 0;
    let mut found = false;
    while p < groups.len()
        invariant_except_break
            !found,
        invariant
            groups@ == before,
            is_grouping(before, list@),
            k == key@,
            p <= groups@.len(),
            forall|i: int| 0 <= i < p ==> pattern_before((#[trigger] groups@[i]).key@, k),
        ensures
            p <= groups@.len(),
            found ==> p < groups@.len() && groups@[p as int].key@ == k,
            !found ==> p == groups@.len() || pattern_before(k, groups@[p as int].key@),
        decreases groups.len() - p,
    {
        match compare_patterns(&groups[p].key, &key) {
            TextOrder::Before => {
                p = p + 1;
            },
            TextOrder::Same => {
                found = true;
                break;
            },
            TextOrder::After => {
                proof {
                    lemma_pattern_order(groups@[p as int].key@, k, k);
                }
                break;
            },
        }
    }
    if found {
        let group = &mut groups[p];
        group.members.push(at);
        proof {
            assert forall|i: int| 0 <= i < groups@.len() implies (#[trigger] groups@[i]).key@
                == before[i].key@ && (i != p ==> groups@[i] == before[i]) by {}
            assert forall|i: int, j: int| 0 <= i < j < groups@.len() implies pattern_before(
                (#[trigger] groups@[i]).key@,
                (#[trigger] groups@[j]).key@,
            ) by {
                assert(pattern_before(before[i].key@, before[j].key@));
            }
            assert forall|i: int| 0 <= i < groups@.len() implies (#[trigger] groups@[i]).members@
                == members_of(after, groups@[i].key@) && groups@[i].members@.len() > 0 by {
                assert(before[i].members@ == members_of(list@, before[i].key@));
                if i != p {
                    lemma_pattern_order(before[i].key@, k, k);
                    if i < p {
                        assert(pattern_before(before[i].key@, before[p as int].key@));
                    } else {
                        assert(pattern_before(before[p as int].key@, before[i].key@));
                    }
                }
            }
            assert forall|n: int| 0 <= n < after.len() implies has_group(
                groups@,
                (#[trigger] after[n]).0,
            ) by {
                if n < list@.len() {
                    assert(has_group(before, list@[n].0));
                    let i = choose|i: int|
                        0 <= i < before.len() && (#[trigger] before[i]).key@ == list@[n].0;
                    assert(groups@[i].key@ == list@[n].0);
                } else {
                    assert(groups@[p as int].key@ == k);
                }
            }
        }
    } else {
        proof {
            assert forall|i: int| p <= i < before.len() implies pattern_before(
                k,
                (#[trigger] before[i]).key@,
            ) by {
                if i > p {
                    assert(pattern_before(before[p as int].key@, before[i].key@));
                    lemma_pattern_order(k, before[p as int].key@, before[i].key@);
                }
            }
            assert forall|n: int| 0 <= n < list@.len() implies (#[trigger] list@[n]).0 != k by {
                assert(has_group(before, list@[n].0));
                let i = choose|i: int|
                    0 <= i < before.len() && (#[trigger] before[i]).key@ == list@[n].0;
                lemma_pattern_order(k, k, k);
            }
            lemma_no_members(list@, k);
        }
        let mut members: Vec<usize> = Vec::new();
        members.push(at);
        groups.insert(p, PatternGroup { key, members });
        proof {
            let g = groups@[p as int];
            assert(groups@ =~= before.insert(p as int, g));
            assert(g.key@ == k);
            assert(g.members@ =~= members_of(list@, k).push(at));
            assert forall|i: int, j: int| 0 <= i < j < groups@.len() implies pattern_before(
                (#[trigger] groups@[i]).key@,
                (#[trigger] groups@[j]).key@,
            ) by {
                if i < p && j > p {
                    assert(groups@[i] == before[i] && groups@[j] == before[j - 1]);
                } else if i < p && j < p {
                    assert(groups@[i] == before[i] && groups@[j] == before[j]);
                } else if i > p {
                    assert(groups@[i] == before[i - 1] && groups@[j] == before[j - 1]);
                } else if i == p {
                    assert(groups@[j] == before[j - 1]);
                } else {
                    assert(groups@[i] == before[i]);
                }
            }
            assert forall|i: int| 0 <= i < groups@.len() implies (#[trigger] groups@[i]).members@
                == members_of(after, groups@[i].key@) && groups@[i].members@.len() > 0 by {
                lemma_pattern_order(k, k, k);
                if i < p {
                    assert(groups@[i] == before[i]);
                    assert(pattern_before(before[i].key@, k));
                } else if i > p {
                    assert(groups@[i] == before[i - 1]);
                    assert(pattern_before(k, before[i - 1].key@));
                }
            }
            assert forall|n: int| 0 <= n < after.len() implies has_group(
                groups@,
                (#[trigger] after[n]).0,
            ) by {
                if n < list@.len() {
                    assert(has_group(before, list@[n].0));
                    let i = choose|i: int|
                        0 <= i < before.len() && (#[trigger] before[i]).key@ == list@[n].0;
                    if i < p {
                        assert(groups@[i].key@ == list@[n].0);
                    } else {
                        assert(groups@[i + 1].key@ == list@[n].0);
                    }
                } else {
                    assert(groups@[p as int].key@ == k);
                }
            }
        }
    }
}

/// A number in at least three digits.
pub open spec fn three_digits(n: nat) -> Seq<char> {
    if n < 10 {
        "00"@ + decimal(n)
    } else if n < 100 {
        "0"@ + decimal(n)
    } else {
        decimal(n)
    }
}

fn push_three_digits(s: &mut String, n: u64)
    ensures
        final(s)@ == old(s)@ + three_digits(n as nat),
{
    let ghost before = s@;
    if n < 10 {
        s.append("00");
    } else if n < 100 {
        s.append("0");
    }
    push_decimal(s, n);
    proof {
        if n < 10 {
            assert(s@ =~= before + ("00"@ + decimal(n as nat)));
        } else if n < 100 {
            assert(s@ =~= before + ("0"@ + decimal(n as nat)));
        }
    }
}

/// Whether a candidate is the one of a group of findings, with its number in the batch. Its
/// evidence claims no match until it has been replayed.
pub open spec fn is_batch_candidate(
    c: DefensiveCandidate,
    key: PatternModel,
    members: Seq<usize>,
    findings: Seq<FindingExplanation>,
    number: nat,
    telemetry: TelemetryProfile,
) -> bool {
    &&& c.schema_version == 1
    &&& c.id@ == "shenron-"@ + lower(key.cve) + "-"@ + three_digits(number)
    &&& is_pattern(c.conditions, key.method, key.path, key.query)
    &&& references_are(c.source_findings@, findings, members)
    &&& texts(c.cves@) == seq![key.cve]
    &&& !c.kev
    &&& c.evidence == (CandidateEvidence {
        historical_requests_evaluated: 0,
        known_threat_findings: members.len() as u64,
        known_threat_findings_matched: 0,
        known_threat_findings_missed: members.len() as u64,
        other_historical_matches: 0,
        threat_coverage: None,
        first_seen: earliest(times_at(findings, members)),
        last_seen: latest(times_at(findings, members)),
        replay_completed: false,
    })
    &&& c.recommended_action is Count
    &&& c.telemetry_profile == telemetry
    &&& c.generation_version@ == "shenron-candidate-build-batch-v1"@
}

/// Whether a batch has one candidate for each pattern of the findings, in the order of the
/// patterns.
pub open spec fn is_batch(
    candidates: Seq<DefensiveCandidate>,
    keys: Seq<PatternModel>,
    findings: Seq<FindingExplanation>,
    telemetry: TelemetryProfile,
) -> bool {
    let list = occurrences(findings, telemetry);
    &&& candidates.len() == keys.len()
    &&& forall|i: int, j: int|
        0 <= i < j < keys.len() ==> pattern_before(#[trigger] keys[i], #[trigger] keys[j])
    &&& forall|n: int| 0 <= n < list.len() ==> keys.contains((#[trigger] list[n]).0)
    &&& forall|i: int| 0 <= i < keys.len() ==> members_of(list, #[trigger] keys[i]).len() > 0
    &&& forall|i: int|
        0 <= i < candidates.len() ==> is_batch_candidate(
            #[trigger] candidates[i],
            keys[i],
            members_of(list, keys[i]),
            findings,
            (i + 1) as nat,
            telemetry,
        )
}

fn batch_candidate(
    group: &PatternGroup,
    findings: &Vec<FindingExplanation>,
    number: u64,
    telemetry_profile: TelemetryProfile,
) -> (r: DefensiveCandidate)
    requires
        forall|i: int| 0 <= i < group.members@.len() ==> (#[trigger] group.members@[i]) < findings@.len(),
    ensures
        is_batch_candidate(
            r,
            group.key@,
            group.members@,
            findings@,
            number as nat,
            telemetry_profile,
        ),
{
    let (first_seen, last_seen) = seen_range(&times_of(findings, &group.members));
    let known = group.members.len() as u64;
    let mut id = "shenron-".to_owned();
    id.append(ascii_lowercase(group.key.cve.as_str()).as_str());
    id.append("-");
    push_three_digits(&mut id, number);
    let mut cves: Vec<String> = Vec::new();
    cves.push(group.key.cve.clone());
    assert(texts(cves@) =~= seq![group.key.cve@]);
    DefensiveCandidate {
        schema_version: 1,
        id,
        conditions: pattern(
            group.key.method.clone(),
            group.key.path.clone(),
            copied(&group.key.query),
        ),
        source_findings: references(findings, &group.members),
        cves,
        kev: false,
        evidence: CandidateEvidence {
            historical_requests_evaluated: 0,
            known_threat_findings: known,
            known_threat_findings_matched: 0,
            known_threat_findings_missed: known,
            other_historical_matches: 0,
            threat_coverage: None,
            first_seen,
            last_seen,
            replay_completed: false,
        },
        recommended_action: RecommendedAction::Count,
        telemetry_profile,
        generation_version: "shenron-candidate-build-batch-v1".to_owned(),
    }
}

fn is_blocked(finding: &FindingExplanation, telemetry: TelemetryProfile) -> (r: bool)
    ensures
        r == blocked(*finding, telemetry),
{
    match (telemetry, &finding.waf_action) {
        (TelemetryProfile::AwsWaf, Some(action)) => {
            let value = ascii_lowercase(action.as_str());
            let wanted = ascii_lowercase("BLOCK");
            same_text(value.as_str(), wanted.as_str())
        },
        _ => false,
    }
}

proof fn lemma_occurrence_positions(
    findings: Seq<FindingExplanation>,
    telemetry: TelemetryProfile,
    n: int,
)
    requires
        0 <= n < occurrences(findings, telemetry).len(),
        findings.len() <= usize::MAX,
    ensures
        occurrences(findings, telemetry)[n].1 < findings.len(),
    decreases findings.len(),
{
    if findings.len() > 0 {
        let before = occurrences(findings.drop_last(), telemetry);
        if n < before.len() {
            lemma_occurrence_positions(findings.drop_last(), telemetry, n);
        }
    }
}

proof fn lemma_member_positions(
    list: Seq<(PatternModel, usize)>,
    key: PatternModel,
    bound: int,
    i: int,
)
    requires
        forall|n: int| 0 <= n < list.len() ==> (#[trigger] list[n]).1 < bound,
        0 <= i < members_of(list, key).len(),
    ensures
        members_of(list, key)[i] < bound,
    decreases list.len(),
{
    if list.len() > 0 {
        assert(list[list.len() - 1] == list.last());
        assert forall|n: int| 0 <= n < list.drop_last().len() implies (#[trigger] list.drop_last()[n]).1
            < bound by {
            assert(list.drop_last()[n] == list[n]);
        }
        if i < members_of(list.drop_last(), key).len() {
            lemma_member_positions(list.drop_last(), key, bound, i);
        }
    }
}

/// Builds one narrow candidate for each CVE and exact request pattern. For AWS WAF, findings that
/// were blocked are left out: they are already protected.
pub fn build_batch_from_findings(
    findings: &Vec<FindingExplanation>,
    telemetry_profile: TelemetryProfile,
) -> (r: (Vec<DefensiveCandidate>, BatchBuildStats))
    ensures
        exists|keys: Seq<PatternModel>| #[trigger]
            is_batch(r.0@, keys, findings@, telemetry_profile),
        r.1.candidates == r.0@.len(),
        r.1.excluded_blocked_findings == count_blocked(findings@, telemetry_profile),
        r.1.skipped_incomplete_findings == count_incomplete(findings@, telemetry_profile),
{
    let mut groups: Vec<PatternGroup> = Vec::new();
    let mut excluded_blocked_findings: usize = 0;
    let mut skipped_incomplete_findings: usize = 0;
    let mut i: usize = 0;
    while i < findings.len()
        invariant
            i <= findings@.len(),
            is_grouping(groups@, occurrences(findings@.take(i as int), telemetry_profile)),
            excluded_blocked_findings == count_blocked(findings@.take(i as int), telemetry_profile),
            excluded_blocked_findings <= i,
            skipped_incomplete_findings == count_incomplete(
                findings@.take(i as int),
                telemetry_profile,
            ),
            skipped_incomplete_findings <= i,
        decreases findings.len() - i,
    {
        let finding = &findings[i];
        let ghost list = occurrences(findings@.take(i as int), telemetry_profile);
        proof {
            assert(findings@.take(i + 1).drop_last() =~= findings@.take(i as int));
            assert(findings@.take(i + 1).last() == *finding);
        }
        if is_blocked(finding, telemetry_profile) {
            excluded_blocked_findings = excluded_blocked_findings + 1;
        } else if finding.method.is_none() || finding.uri_path.is_none() {
            skipped_incomplete_findings = skipped_incomplete_findings + 1;
        } else {
            let ghost own = own_patterns(*finding, i);
            let mut c: usize = 0;
            assert(list + own.take(0) =~= list);
            while c < finding.cves.len()
                invariant
                    complete(*finding),
                    own == own_patterns(*finding, i),
                    c <= finding.cves@.len(),
                    is_grouping(groups@, list + own.take(c as int)),
                decreases finding.cves.len() - c,
            {
                let key = PatternKey {
                    cve: ascii_uppercase(trim(finding.cves[c].as_str()).as_str()),
                    method: match &finding.method {
                        Some(method) => method.clone(),
                        None => String::new(),
                    },
                    path: match &finding.uri_path {
                        Some(path) => path.clone(),
                        None => String::new(),
                    },
                    query: copied(&finding.uri_query),
                };
                assert(key@ == pattern_of(*finding, finding.cves@[c as int]@));
                assert((list + own.take(c as int)).push((key@, i)) =~= list + own.take(c + 1));
                add_member(&mut groups, key, i, Ghost(list + own.take(c as int)));
                c = c + 1;
            }
            assert(own.take(c as int) =~= own);
        }
        i = i + 1;
    }
    assert(findings@.take(i as int) =~= findings@);
    let total = findings.len();
    let ghost list = occurrences(findings@, telemetry_profile);
    let ghost keys = groups@.map_values(|g: PatternGroup| g.key@);
    let mut candidates: Vec<DefensiveCandidate> = Vec::new();
    let mut g: usize = 0;
    while g < groups.len()
        invariant
            total == findings@.len(),
            list == occurrences(findings@, telemetry_profile),
            is_grouping(groups@, list),
            keys == groups@.map_values(|g: PatternGroup| g.key@),
            g <= groups@.len(),
            candidates@.len() == g,
            forall|j: int|
                0 <= j < g ==> is_batch_candidate(
                    #[trigger] candidates@[j],
                    keys[j],
                    members_of(list, keys[j]),
                    findings@,
                    (j + 1) as nat,
                    telemetry_profile,
                ),
        decreases groups.len() - g,
    {
        let group = &groups[g];
        proof {
            assert forall|j: int| 0 <= j < group.members@.len() implies (#[trigger] group.members@[j])
                < findings@.len() by {
                assert forall|n: int| 0 <= n < list.len() implies (#[trigger] list[n]).1
                    < findings@.len() by {
                    lemma_occurrence_positions(findings@, telemetry_profile, n);
                }
                lemma_member_positions(list, group.key@, findings@.len() as int, j);
            }
        }
        candidates.push(batch_candidate(group, findings, g as u64 + 1, telemetry_profile));
        g = g + 1;
    }
    proof {
        assert forall|i: int, j: int| 0 <= i < j < keys.len() implies pattern_before(
            #[trigger] keys[i],
            #[trigger] keys[j],
        ) by {
            assert(pattern_before(groups@[i].key@, groups@[j].key@));
        }
        assert forall|n: int| 0 <= n < list.len() implies keys.contains((#[trigger] list[n]).0) by {
            assert(has_group(groups@, list[n].0));
            let k = choose|k: int|
                0 <= k < groups@.len() && (#[trigger] groups@[k]).key@ == list[n].0;
            assert(keys[k] == list[n].0);
        }
        assert forall|i: int| 0 <= i < keys.len() implies members_of(list, #[trigger] keys[i]).len()
            > 0 by {
            assert(groups@[i].members@.len() > 0);
        }
    }
    let stats = BatchBuildStats {
        candidates: candidates.len(),
        excluded_blocked_findings,
        skipped_incomplete_findings,
    };
    let r = (candidates, stats);
    assert(is_batch(r.0@, keys, findings@, telemetry_profile));
    r
}


/// How far a control can express a candidate.
pub fn compatibility(
    candidate: &DefensiveCandidate,
    backend: Backend,
    telemetry: TelemetryProfile,
) -> (r: CompatibilityReport)
    ensures
        is_compatibility(r, candidate.conditions, backend, telemetry),
{
    condition_compatibility(&candidate.conditions, backend, telemetry)
}

/// The request identifiers of the findings that a candidate was built from.
pub open spec fn known_ids(list: Seq<FindingReference>) -> Set<Seq<char>>
    decreases list.len(),
{
    if list.len() == 0 {
        Set::empty()
    } else {
        let before = known_ids(list.drop_last());
        match list.last().request_id {
            Some(id) => before.insert(id@),
            None => before,
        }
    }
}

/// What a replay has seen so far.
pub struct ReplayModel {
    pub known: Set<Seq<char>>,
    pub evaluated: nat,
    pub matched: Set<Seq<char>>,
    pub other: nat,
}

impl ReplayModel {
    pub open spec fn none(known: Set<Seq<char>>) -> ReplayModel {
        ReplayModel { known, evaluated: 0, matched: Set::empty(), other: 0 }
    }

    /// The replay after one more event: a match counts for its finding where its request is
    /// known, and otherwise as another match.
    pub open spec fn observed(self, c: DefensiveCondition, e: WebEvent) -> ReplayModel {
        let known = e.request_id is Some && self.known.contains(e.request_id.unwrap()@);
        ReplayModel {
            known: self.known,
            evaluated: self.evaluated + 1,
            matched: if holds(c, e) && known {
                self.matched.insert(e.request_id.unwrap()@)
            } else {
                self.matched
            },
            other: if holds(c, e) && !known {
                self.other + 1
            } else {
                self.other
            },
        }
    }
}

/// The replay of a candidate against historical traffic, one event at a time.
#[derive(Clone, Debug)]
pub struct CandidateReplay {
    known: TextSet,
    evaluated: u64,
    matched: TextSet,
    other: u64,
}

impl View for CandidateReplay {
    type V = ReplayModel;

    closed spec fn view(&self) -> ReplayModel {
        ReplayModel {
            known: self.known@,
            evaluated: self.evaluated as nat,
            matched: self.matched@,
            other: self.other as nat,
        }
    }
}

impl CandidateReplay {
    pub closed spec fn wf(&self) -> bool {
        &&& self.known.wf()
        &&& self.matched.wf()
        &&& self.matched@.subset_of(self.known@)
        &&& self.other <= self.evaluated
    }

    pub fn new(candidate: &DefensiveCandidate) -> (r: Self)
        ensures
            r.wf(),
            r@ == ReplayModel::none(known_ids(candidate.source_findings@)),
    {
        let list = &candidate.source_findings;
        let mut known = TextSet::new();
        let mut i: usize = 0;
        while i < list.len()
            invariant
                known.wf(),
                i <= list@.len(),
                known@ == known_ids(list@.take(i as int)),
            decreases list.len() - i,
        {
            assert(list@.take(i + 1).drop_last() =~= list@.take(i as int));
            if let Some(id) = &list[i].request_id {
                known.insert(id.clone());
            }
            i = i + 1;
        }
        assert(list@.take(i as int) =~= list@);
        CandidateReplay { known, evaluated: 0, matched: TextSet::new(), other: 0 }
    }

    /// The number of events replayed.
    pub fn evaluated(&self) -> (r: u64)
        ensures
            r == self@.evaluated,
    {
        self.evaluated
    }

    pub fn observe(&mut self, candidate: &DefensiveCandidate, event: &WebEvent)
        requires
            old(self).wf(),
            old(self)@.evaluated < u64::MAX,
        ensures
            final(self).wf(),
            final(self)@ == old(self)@.observed(candidate.conditions, *event),
    {
        self.evaluated = self.evaluated + 1;
        if candidate.conditions.matches(event) {
            match &event.request_id {
                Some(id) => {
                    if self.known.contains(id.as_str()) {
                        self.matched.insert(id.clone());
                    } else {
                        self.other = self.other + 1;
                    }
                },
                None => {
                    self.other = self.other + 1;
                },
            }
        }
    }

    /// Records what the replay found in the evidence of the candidate.
    pub fn finish(&self, candidate: &mut DefensiveCandidate, telemetry_profile: TelemetryProfile)
        requires
            self.wf(),
        ensures
            *final(candidate) == (DefensiveCandidate {
                evidence: replayed(old(candidate).evidence, self@),
                telemetry_profile,
                ..*old(candidate)
            }),
    {
        let known = candidate.evidence.known_threat_findings;
        let matched = self.matched.len() as u64;
        let count = self.known.len();
        proof {
            self.known.lemma_members();
            if self.known@.len() == 0 {
                assert(self.known@ =~= Set::<Seq<char>>::empty());
            }
        }
        candidate.evidence.historical_requests_evaluated = self.evaluated;
        candidate.evidence.known_threat_findings_matched = matched;
        candidate.evidence.known_threat_findings_missed = if known >= matched {
            known - matched
        } else {
            0
        };
        candidate.evidence.other_historical_matches = self.other;
        candidate.evidence.threat_coverage = if known != 0 && count != 0 {
            Some(Ratio { numerator: matched, denominator: known })
        } else {
            None
        };
        candidate.evidence.replay_completed = true;
        candidate.telemetry_profile = telemetry_profile;
    }
}

/// The evidence after a completed replay.
pub open spec fn replayed(evidence: CandidateEvidence, replay: ReplayModel) -> CandidateEvidence {
    let known = evidence.known_threat_findings;
    let matched = replay.matched.len();
    CandidateEvidence {
        historical_requests_evaluated: replay.evaluated as u64,
        known_threat_findings_matched: matched as u64,
        known_threat_findings_missed: if known >= matched {
            (known - matched) as u64
        } else {
            0
        },
        other_historical_matches: replay.other as u64,
        threat_coverage: if known != 0 && replay.known.len() != 0 {
            Some(Ratio { numerator: matched as u64, denominator: known })
        } else {
            None
        },
        replay_completed: true,
        ..evidence
    }
}

/// Only findings that the candidate was built from count as matched, and a replayed event counts
/// once.
pub proof fn replay_counts_each_event_once(
    replay: ReplayModel,
    c: DefensiveCondition,
    e: WebEvent,
)
    requires
        replay.matched.subset_of(replay.known),
    ensures
        replay.observed(c, e).matched.subset_of(replay.known),
        replay.observed(c, e).evaluated == replay.evaluated + 1,
        !holds(c, e) ==> replay.observed(c, e).matched == replay.matched && replay.observed(
            c,
            e,
        ).other == replay.other,
{
}

/// The replay of a list of events.
pub open spec fn replay_of(
    known: Set<Seq<char>>,
    c: DefensiveCondition,
    events: Seq<WebEvent>,
) -> ReplayModel
    decreases events.len(),
{
    if events.len() == 0 {
        ReplayModel::none(known)
    } else {
        replay_of(known, c, events.drop_last()).observed(c, events.last())
    }
}

/// Replays a candidate on events.
pub fn replay(
    candidate: DefensiveCandidate,
    events: &Vec<WebEvent>,
    telemetry_profile: TelemetryProfile,
) -> (r: DefensiveCandidate)
    ensures
        r == (DefensiveCandidate {
            evidence: replayed(
                candidate.evidence,
                replay_of(
                    known_ids(candidate.source_findings@),
                    candidate.conditions,
                    events@,
                ),
            ),
            telemetry_profile,
            ..candidate
        }),
{
    let ghost known = known_ids(candidate.source_findings@);
    let mut replay = CandidateReplay::new(&candidate);
    let mut i: usize = 0;
    while i < events.len()
        invariant
            i <= events@.len(),
            replay.wf(),
            replay@ == replay_of(known, candidate.conditions, events@.take(i as int)),
            replay@.evaluated == i,
        decreases events.len() - i,
    {
        assert(events@.take(i + 1).drop_last() =~= events@.take(i as int));
        replay.observe(&candidate, &events[i]);
        i = i + 1;
    }
    assert(events@.take(i as int) =~= events@);
    let mut done = candidate;
    replay.finish(&mut done, telemetry_profile);
    done
}

/// A match of an event for the request of a known finding.
pub open spec fn matches_known(c: DefensiveCondition, e: WebEvent, id: Seq<char>) -> bool {
    holds(c, e) && e.request_id is Some && e.request_id.unwrap()@ == id
}

/// A finding is matched exactly where it is known and some replayed event of its request meets
/// the conditions, wherever that event stands in the list.
pub proof fn a_replay_finds_what_matches(
    known: Set<Seq<char>>,
    c: DefensiveCondition,
    events: Seq<WebEvent>,
    id: Seq<char>,
)
    ensures
        replay_of(known, c, events).known == known,
        replay_of(known, c, events).evaluated == events.len(),
        replay_of(known, c, events).matched.contains(id) == (known.contains(id) && exists|i: int|
            0 <= i < events.len() && matches_known(c, #[trigger] events[i], id)),
    decreases events.len(),
{
    if events.len() > 0 {
        let before = events.drop_last();
        a_replay_finds_what_matches(known, c, before, id);
        if exists|i: int| 0 <= i < before.len() && matches_known(c, #[trigger] before[i], id) {
            let i = choose|i: int|
                0 <= i < before.len() && matches_known(c, #[trigger] before[i], id);
            assert(events[i] == before[i]);
        }
        if matches_known(c, events.last(), id) {
            assert(events[events.len() - 1] == events.last());
        }
        if exists|i: int| 0 <= i < events.len() && matches_known(c, #[trigger] events[i], id) {
            let i = choose|i: int|
                0 <= i < events.len() && matches_known(c, #[trigger] events[i], id);
            if i < before.len() {
                assert(before[i] == events[i]);
            }
        }
    }
}

} // verus!
