//! What the evidence of a replayed candidate says of the traffic it was replayed on.

use crate::candidate::{
    a_replay_finds_what_matches, known_ids, replay_of, replayed, DefensiveCandidate,
    FindingReference,
};
use crate::condition::{holds, DefensiveCondition};
use crate::event::WebEvent;
use crate::numbers::Ratio;
use vstd::prelude::*;

verus! {

/// Whether a finding of a list has a request identifier.
pub open spec fn is_known(findings: Seq<FindingReference>, id: Seq<char>) -> bool {
    exists|i: int|
        0 <= i < findings.len() && (#[trigger] findings[i]).request_id is Some
            && findings[i].request_id.unwrap()@ == id
}

/// Whether an event of a request meets a condition somewhere in a list.
pub open spec fn is_met(c: DefensiveCondition, events: Seq<WebEvent>, id: Seq<char>) -> bool {
    exists|i: int|
        0 <= i < events.len() && holds(c, #[trigger] events[i]) && events[i].request_id is Some
            && events[i].request_id.unwrap()@ == id
}

/// Whether an event meets a condition without being the request of a known finding.
pub open spec fn is_other_match(
    c: DefensiveCondition,
    findings: Seq<FindingReference>,
    e: WebEvent,
) -> bool {
    holds(c, e) && !(e.request_id is Some && is_known(findings, e.request_id.unwrap()@))
}

/// The identifiers of the known findings whose request met the condition.
pub open spec fn found(candidate: DefensiveCandidate, events: Seq<WebEvent>) -> Set<Seq<char>> {
    Set::new(
        |id: Seq<char>|
            is_known(candidate.source_findings@, id) && is_met(candidate.conditions, events, id),
    )
}

proof fn lemma_known_ids(findings: Seq<FindingReference>, id: Seq<char>)
    ensures
        known_ids(findings).contains(id) == is_known(findings, id),
        known_ids(findings).finite(),
        known_ids(findings).len() <= findings.len(),
    decreases findings.len(),
{
    if findings.len() > 0 {
        let before = findings.drop_last();
        lemma_known_ids(before, id);
        assert(findings[findings.len() - 1] == findings.last());
        if is_known(before, id) {
            let i = choose|i: int|
                0 <= i < before.len() && (#[trigger] before[i]).request_id is Some
                    && before[i].request_id.unwrap()@ == id;
            assert(findings[i] == before[i]);
        }
        if is_known(findings, id) {
            let i = choose|i: int|
                0 <= i < findings.len() && (#[trigger] findings[i]).request_id is Some
                    && findings[i].request_id.unwrap()@ == id;
            if i < before.len() {
                assert(before[i] == findings[i]);
            }
        }
    }
}

proof fn lemma_others(
    c: DefensiveCondition,
    findings: Seq<FindingReference>,
    events: Seq<WebEvent>,
)
    ensures
        replay_of(known_ids(findings), c, events).other == events.filter(
            |e: WebEvent| is_other_match(c, findings, e),
        ).len(),
        replay_of(known_ids(findings), c, events).other <= events.len(),
    decreases events.len(),
{
    reveal(Seq::filter);
    if events.len() > 0 {
        let before = events.drop_last();
        lemma_others(c, findings, before);
        let e = events.last();
        if e.request_id is Some {
            lemma_known_ids(findings, e.request_id.unwrap()@);
        }
        a_replay_finds_what_matches(known_ids(findings), c, before, seq![]);
    }
}

proof fn lemma_found(candidate: DefensiveCandidate, events: Seq<WebEvent>)
    ensures
        ({
            let known = known_ids(candidate.source_findings@);
            let m = replay_of(known, candidate.conditions, events);
            &&& m.known == known
            &&& m.evaluated == events.len()
            &&& m.matched == found(candidate, events)
            &&& m.matched.finite()
            &&& m.matched.len() <= known.len()
            &&& m.matched.len() <= candidate.source_findings@.len()
        }),
{
    let known = known_ids(candidate.source_findings@);
    let c = candidate.conditions;
    let m = replay_of(known, c, events);
    a_replay_finds_what_matches(known, c, events, seq![]);
    assert forall|id: Seq<char>| m.matched.contains(id) == found(candidate, events).contains(id) by {
        a_replay_finds_what_matches(known, c, events, id);
        lemma_known_ids(candidate.source_findings@, id);
        if is_met(c, events, id) {
            let i = choose|i: int|
                0 <= i < events.len() && holds(c, #[trigger] events[i])
                    && events[i].request_id is Some && events[i].request_id.unwrap()@ == id;
            assert(crate::candidate::matches_known(c, events[i], id));
        }
    }
    assert(m.matched =~= found(candidate, events));
    lemma_known_ids(candidate.source_findings@, seq![]);
    assert forall|id: Seq<char>| m.matched.contains(id) implies known.contains(id) by {
        a_replay_finds_what_matches(known, c, events, id);
    }
    vstd::set_lib::lemma_len_subset(m.matched, known);
}

/// The coverage of a replay is the number of known findings that some replayed event matched, by
/// their distinct request identifiers, over the number of known findings; what was not matched
/// was missed. There is no coverage where no known finding has a request identifier. Every other
/// match is counted, and so is every event.
pub proof fn coverage_is_what_was_found(
    candidate: DefensiveCandidate,
    events: Vec<WebEvent>,
    done: DefensiveCandidate,
)
    requires
        done.evidence == replayed(
            candidate.evidence,
            replay_of(
                known_ids(candidate.source_findings@),
                candidate.conditions,
                events@,
            ),
        ),
    ensures
        ({
            let e = done.evidence;
            let known = candidate.evidence.known_threat_findings;
            let matched = found(candidate, events@).len();
            let some_id = exists|i: int|
                0 <= i < candidate.source_findings@.len() && (
                #[trigger] candidate.source_findings@[i]).request_id is Some;
            &&& found(candidate, events@).finite()
            &&& e.historical_requests_evaluated == events@.len()
            &&& e.known_threat_findings == known
            &&& e.known_threat_findings_matched == matched
            &&& matched <= known ==> e.known_threat_findings_matched
                + e.known_threat_findings_missed == known
            &&& matched > known ==> e.known_threat_findings_missed == 0
            &&& e.other_historical_matches == events@.filter(
                |x: WebEvent|
                    is_other_match(candidate.conditions, candidate.source_findings@, x),
            ).len()
            &&& e.replay_completed
            &&& e.first_seen == candidate.evidence.first_seen
            &&& e.last_seen == candidate.evidence.last_seen
            &&& e.threat_coverage is Some == (known > 0 && some_id)
            &&& e.threat_coverage matches Some(share) ==> share.numerator == matched
                && share.denominator == known
        }),
{
    broadcast use vstd::std_specs::vec::axiom_spec_len;

    let findings = candidate.source_findings@;
    let m = replay_of(known_ids(findings), candidate.conditions, events@);
    lemma_found(candidate, events@);
    lemma_others(candidate.conditions, findings, events@);
    assert(candidate.source_findings.len() == findings.len());
    assert(events.len() == events@.len());
    lemma_known_ids(findings, seq![]);
    if exists|i: int| 0 <= i < findings.len() && (#[trigger] findings[i]).request_id is Some {
        let i = choose|i: int|
            0 <= i < findings.len() && (#[trigger] findings[i]).request_id is Some;
        let id = findings[i].request_id.unwrap()@;
        lemma_known_ids(findings, id);
        assert(known_ids(findings).len() > 0) by {
            if known_ids(findings).len() == 0 {
                assert(known_ids(findings) =~= Set::empty());
            }
        }
    } else {
        assert(known_ids(findings) =~= Set::empty()) by {
            assert forall|id: Seq<char>| !known_ids(findings).contains(id) by {
                lemma_known_ids(findings, id);
            }
        }
    }
}

/// The coverage is full exactly where no finding was missed, and none where nothing matched.
pub proof fn coverage_is_full_where_nothing_was_missed(
    candidate: DefensiveCandidate,
    events: Vec<WebEvent>,
    done: DefensiveCandidate,
    share: Ratio,
)
    requires
        done.evidence == replayed(
            candidate.evidence,
            replay_of(
                known_ids(candidate.source_findings@),
                candidate.conditions,
                events@,
            ),
        ),
        done.evidence.threat_coverage == Some(share),
    ensures
        share.denominator > 0,
        share.numerator >= share.denominator <==> done.evidence.known_threat_findings_missed == 0,
        share.numerator == 0 <==> forall|id: Seq<char>|
            is_known(candidate.source_findings@, id) ==> !#[trigger] is_met(
                candidate.conditions,
                events@,
                id,
            ),
{
    coverage_is_what_was_found(candidate, events, done);
    let all = found(candidate, events@);
    if all.len() == 0 {
        assert(all =~= Set::empty());
        assert forall|id: Seq<char>| is_known(candidate.source_findings@, id) implies
            !#[trigger] is_met(candidate.conditions, events@, id) by {
            assert(!all.contains(id));
        }
    }
    if forall|id: Seq<char>|
        is_known(candidate.source_findings@, id) ==> !#[trigger] is_met(
            candidate.conditions,
            events@,
            id,
        ) {
        assert(all =~= Set::empty());
    }
}

} // verus!
