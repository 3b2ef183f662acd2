//! Comparison of self-declared attributes with observed facts.
//!
//! A mismatch is a labelled observation only. Declarations are freely settable, reference data
//! can be incomplete or stale, and intermediaries can rewrite both sides.

use crate::event::opt_str;
use crate::ordered::{
    increasing, lemma_increasing_distinct, ordered_texts, ordered_texts_lists_the_members, TextMap,
};
use crate::sums::{
    lemma_list_sum_total, lemma_sum_empty, lemma_sum_insert, list_sum, map_sum,
};
use crate::text::{contains, contains_text, opt_text, same_text, texts};
use vstd::prelude::*;
use vstd::string::*;

verus! {

broadcast use vstd::string::group_string_axioms;

pub const DEFAULT_MAX_PRIVATE_CONSISTENCY_OBSERVATIONS: usize = 1_000_000;

pub const CONSISTENCY_SAFETY_NOTE: &'static str =
    "A mismatch between a self-declared attribute and an observed one is a labeled observation. Declarations are freely settable, reference data can be incomplete or stale, and intermediaries can rewrite both. It is not a determination of impersonation, automation, attack, abuse, compromise, or attacker identity.";

#[derive(Clone, Copy, Debug, PartialEq, Eq, Structural)]
pub enum ComparisonOutcome {
    Match,
    Mismatch,
    Unavailable,
}

#[derive(Clone, Copy, Debug, PartialEq, Eq, Structural)]
pub enum UnavailableReason {
    ReferenceDataMissing,
    TelemetryDoesNotExpose,
    ObservedValueMissing,
}

#[derive(Clone, Copy, Debug, PartialEq, Eq, Structural)]
pub struct ComparisonResult {
    pub outcome: ComparisonOutcome,
    pub unavailable_reason: Option<UnavailableReason>,
}

pub open spec fn without(reason: UnavailableReason) -> ComparisonResult {
    ComparisonResult {
        outcome: ComparisonOutcome::Unavailable,
        unavailable_reason: Some(reason),
    }
}

pub open spec fn decided(matches: bool) -> ComparisonResult {
    ComparisonResult {
        outcome: if matches {
            ComparisonOutcome::Match
        } else {
            ComparisonOutcome::Mismatch
        },
        unavailable_reason: None,
    }
}

/// The result of a comparison. What the telemetry exposes and whether there is a value are asked
/// before the reference data, so that each unavailable result has one reason.
pub open spec fn compared(exposed: bool, observed: bool, reference: bool, matches: bool) -> ComparisonResult {
    if !exposed {
        without(UnavailableReason::TelemetryDoesNotExpose)
    } else if !observed {
        without(UnavailableReason::ObservedValueMissing)
    } else if !reference {
        without(UnavailableReason::ReferenceDataMissing)
    } else {
        decided(matches)
    }
}

pub fn compare_boolean_fact(
    telemetry_exposes_observed: bool,
    observed_available: bool,
    reference_available: bool,
    matches: bool,
) -> (r: ComparisonResult)
    ensures
        r == compared(telemetry_exposes_observed, observed_available, reference_available, matches),
{
    if !telemetry_exposes_observed {
        unavailable(UnavailableReason::TelemetryDoesNotExpose)
    } else if !observed_available {
        unavailable(UnavailableReason::ObservedValueMissing)
    } else if !reference_available {
        unavailable(UnavailableReason::ReferenceDataMissing)
    } else {
        ComparisonResult {
            outcome: if matches {
                ComparisonOutcome::Match
            } else {
                ComparisonOutcome::Mismatch
            },
            unavailable_reason: None,
        }
    }
}

pub fn unavailable(reason: UnavailableReason) -> (r: ComparisonResult)
    ensures
        r == without(reason),
{
    ComparisonResult {
        outcome: ComparisonOutcome::Unavailable,
        unavailable_reason: Some(reason),
    }
}

/// Whether an observed value is one of the accepted ones.
pub open spec fn accepts(accepted: Option<&[String]>, observed: Option<&str>) -> bool {
    accepted is Some && observed is Some && texts(accepted.unwrap()@).contains(observed.unwrap()@)
}

/// Sets a declared attribute against the accepted observed values.
pub fn compare_declared_with_observed(
    telemetry_exposes_observed: bool,
    observed: Option<&str>,
    accepted_observed_values: Option<&[String]>,
) -> (r: ComparisonResult)
    ensures
        r == compared(
            telemetry_exposes_observed,
            observed is Some && observed.unwrap()@.len() > 0,
            accepted_observed_values is Some,
            accepts(accepted_observed_values, observed),
        ),
{
    if !telemetry_exposes_observed {
        return unavailable(UnavailableReason::TelemetryDoesNotExpose);
    }
    let value = match observed {
        Some(value) => value,
        None => {
            return unavailable(UnavailableReason::ObservedValueMissing);
        },
    };
    if value.is_empty() {
        return unavailable(UnavailableReason::ObservedValueMissing);
    }
    let accepted = match accepted_observed_values {
        Some(values) => values,
        None => {
            return unavailable(UnavailableReason::ReferenceDataMissing);
        },
    };
    let mut i: usize = 0;
    while i < accepted.len()
        invariant
            i <= accepted@.len(),
            telemetry_exposes_observed,
            observed == Some(value),
            value@.len() > 0,
            accepted_observed_values == Some(accepted),
            forall|j: int| 0 <= j < i ==> texts(accepted@)[j] != value@,
        decreases accepted.len() - i,
    {
        if same_text(accepted[i].as_str(), value) {
            assert(texts(accepted@)[i as int] == value@);
            return ComparisonResult {
                outcome: ComparisonOutcome::Match,
                unavailable_reason: None,
            };
        }
        i = i + 1;
    }
    ComparisonResult { outcome: ComparisonOutcome::Mismatch, unavailable_reason: None }
}

/// Only a comparison that was made can be a match or a mismatch.
pub proof fn missing_facts_are_no_mismatch(
    exposed: bool,
    observed: bool,
    reference: bool,
    matches: bool,
)
    ensures
        ({
            let r = compared(exposed, observed, reference, matches);
            &&& r.outcome == ComparisonOutcome::Unavailable <==> !(exposed && observed && reference)
            &&& r.outcome == ComparisonOutcome::Unavailable <==> r.unavailable_reason is Some
        }),
{
}

#[derive(Clone, Copy, Debug, PartialEq, Eq, Structural)]
pub struct UnavailableReasonCounts {
    pub reference_data_missing: u64,
    pub telemetry_does_not_expose: u64,
    pub observed_value_missing: u64,
}

#[derive(Clone, Debug)]
pub struct ConsistencyCheckSummary {
    pub check_id: String,
    pub matches: u64,
    pub mismatches: u64,
    pub unavailable: u64,
    pub unavailable_reasons: UnavailableReasonCounts,
}

#[derive(Clone, Debug)]
pub struct ConsistencySummary {
    pub checks: Vec<ConsistencyCheckSummary>,
    /// Mismatches that found no place in the private report.
    pub private_observations_beyond_cap: u64,
}

#[derive(Clone, Debug)]
pub struct PrivateConsistencyObservation {
    pub check_id: String,
    pub declared_attribute: String,
    pub declared_value: String,
    pub observed_attribute: String,
    pub observed_value: Option<String>,
    pub outcome: ComparisonOutcome,
    pub unavailable_reason: Option<UnavailableReason>,
}

pub struct ObservationModel {
    pub check_id: Seq<char>,
    pub declared_attribute: Seq<char>,
    pub declared_value: Seq<char>,
    pub observed_attribute: Seq<char>,
    pub observed_value: Option<Seq<char>>,
    pub outcome: ComparisonOutcome,
    pub unavailable_reason: Option<UnavailableReason>,
}

impl View for PrivateConsistencyObservation {
    type V = ObservationModel;

    open spec fn view(&self) -> ObservationModel {
        ObservationModel {
            check_id: self.check_id@,
            declared_attribute: self.declared_attribute@,
            declared_value: self.declared_value@,
            observed_attribute: self.observed_attribute@,
            observed_value: opt_text(self.observed_value),
            outcome: self.outcome,
            unavailable_reason: self.unavailable_reason,
        }
    }
}

pub open spec fn observations(list: Seq<PrivateConsistencyObservation>) -> Seq<ObservationModel> {
    list.map_values(|o: PrivateConsistencyObservation| o@)
}

#[derive(Clone, Debug)]
pub struct PrivateConsistencyReport {
    pub report_kind: String,
    pub safety_note: String,
    /// The outcomes of every check that ran. Unavailable outcomes keep their reasons and are
    /// never folded into mismatches.
    pub checks: Vec<ConsistencyCheckSummary>,
    /// Private values are kept for mismatches only.
    pub mismatch_observations: Vec<PrivateConsistencyObservation>,
    pub mismatch_observations_beyond_cap: u64,
}

/// The outcomes of a check.
#[derive(Clone, Copy, Debug, PartialEq, Eq, Structural)]
pub struct CheckCounts {
    pub matches: u64,
    pub mismatches: u64,
    pub unavailable: u64,
    pub reasons: UnavailableReasonCounts,
}

impl CheckCounts {
    pub open spec fn zero() -> CheckCounts {
        CheckCounts {
            matches: 0,
            mismatches: 0,
            unavailable: 0,
            reasons: UnavailableReasonCounts {
                reference_data_missing: 0,
                telemetry_does_not_expose: 0,
                observed_value_missing: 0,
            },
        }
    }

    /// Each unavailable outcome has one reason.
    pub open spec fn wf(self) -> bool {
        self.reasons.reference_data_missing + self.reasons.telemetry_does_not_expose
            + self.reasons.observed_value_missing == self.unavailable
    }

    /// Whether the counter of an outcome can grow.
    pub open spec fn room(self, outcome: ComparisonOutcome) -> bool {
        match outcome {
            ComparisonOutcome::Match => self.matches < u64::MAX,
            ComparisonOutcome::Mismatch => self.mismatches < u64::MAX,
            ComparisonOutcome::Unavailable => self.unavailable < u64::MAX,
        }
    }

    /// The outcomes with one more result.
    pub open spec fn counted(self, result: ComparisonResult, next: CheckCounts) -> bool {
        let reason = if result.outcome == ComparisonOutcome::Unavailable {
            result.unavailable_reason
        } else {
            None
        };
        &&& next.matches == self.matches + one_if(result.outcome == ComparisonOutcome::Match)
        &&& next.mismatches == self.mismatches + one_if(
            result.outcome == ComparisonOutcome::Mismatch,
        )
        &&& next.unavailable == self.unavailable + one_if(
            result.outcome == ComparisonOutcome::Unavailable,
        )
        &&& next.reasons.reference_data_missing == self.reasons.reference_data_missing + one_if(
            reason == Some(UnavailableReason::ReferenceDataMissing),
        )
        &&& next.reasons.telemetry_does_not_expose == self.reasons.telemetry_does_not_expose
            + one_if(reason == Some(UnavailableReason::TelemetryDoesNotExpose))
        &&& next.reasons.observed_value_missing == self.reasons.observed_value_missing + one_if(
            reason == Some(UnavailableReason::ObservedValueMissing),
        )
    }
}

pub open spec fn one_if(b: bool) -> int {
    if b {
        1
    } else {
        0
    }
}

/// An unavailable result has a reason.
pub open spec fn explained(result: ComparisonResult) -> bool {
    result.outcome == ComparisonOutcome::Unavailable ==> result.unavailable_reason is Some
}

fn count_result(counts: CheckCounts, result: ComparisonResult) -> (r: CheckCounts)
    requires
        counts.wf(),
        counts.room(result.outcome),
        explained(result),
    ensures
        r.wf(),
        counts.counted(result, r),
{
    let mut r = counts;
    match result.outcome {
        ComparisonOutcome::Match => {
            r.matches = r.matches + 1;
        },
        ComparisonOutcome::Mismatch => {
            r.mismatches = r.mismatches + 1;
        },
        ComparisonOutcome::Unavailable => {
            r.unavailable = r.unavailable + 1;
            match result.unavailable_reason {
                Some(UnavailableReason::ReferenceDataMissing) => {
                    r.reasons.reference_data_missing = r.reasons.reference_data_missing + 1;
                },
                Some(UnavailableReason::TelemetryDoesNotExpose) => {
                    r.reasons.telemetry_does_not_expose = r.reasons.telemetry_does_not_expose + 1;
                },
                Some(UnavailableReason::ObservedValueMissing) => {
                    r.reasons.observed_value_missing = r.reasons.observed_value_missing + 1;
                },
                None => {},
            }
        },
    }
    r
}

/// The mismatches of each check.
pub open spec fn mismatch_counts(checks: Map<Seq<char>, CheckCounts>) -> Map<Seq<char>, nat> {
    checks.map_values(|c: CheckCounts| c.mismatches as nat)
}

/// What has been recorded.
pub struct AccumulatorModel {
    pub checks: Map<Seq<char>, CheckCounts>,
    pub mismatches: Seq<ObservationModel>,
    pub cap: nat,
    pub beyond: nat,
}

impl AccumulatorModel {
    pub open spec fn counts(self, check: Seq<char>) -> CheckCounts {
        if self.checks.dom().contains(check) {
            self.checks[check]
        } else {
            CheckCounts::zero()
        }
    }

    pub open spec fn wf(self) -> bool {
        &&& self.checks.dom().finite()
        &&& forall|check: Seq<char>| #[trigger]
            self.checks.dom().contains(check) ==> self.checks[check].wf()
        &&& self.mismatches.len() <= self.cap
        &&& self.beyond > 0 ==> self.mismatches.len() == self.cap
        &&& map_sum(mismatch_counts(self.checks)) == self.mismatches.len() + self.beyond
    }

    /// Whether one more outcome of a check can be counted: the check's counter of that outcome
    /// can grow, and so can the number of mismatches left out, where this would be one more.
    pub open spec fn room(self, check: Seq<char>, outcome: ComparisonOutcome) -> bool {
        &&& self.counts(check).room(outcome)
        &&& outcome == ComparisonOutcome::Mismatch && self.mismatches.len() >= self.cap
            ==> self.beyond < u64::MAX
    }

    /// Whether `next` is what has been recorded after one more observation: the check counts it,
    /// and a mismatch is kept as long as there is a place, and counted after that.
    pub open spec fn recorded(self, o: ObservationModel, next: AccumulatorModel) -> bool {
        let result = ComparisonResult {
            outcome: o.outcome,
            unavailable_reason: o.unavailable_reason,
        };
        &&& next.checks.dom() == self.checks.dom().insert(o.check_id)
        &&& self.counts(o.check_id).counted(result, next.checks[o.check_id])
        &&& forall|check: Seq<char>|
            check != o.check_id && #[trigger] self.checks.dom().contains(check)
                ==> next.checks[check] == self.checks[check]
        &&& next.cap == self.cap
        &&& if o.outcome != ComparisonOutcome::Mismatch {
            next.mismatches == self.mismatches && next.beyond == self.beyond
        } else if self.mismatches.len() < self.cap {
            next.mismatches == self.mismatches.push(o) && next.beyond == self.beyond
        } else {
            next.mismatches == self.mismatches && next.beyond == self.beyond + 1
        }
    }
}

/// Whether each state is what has been recorded after the observation before it.
pub open spec fn recorded_all(
    states: Seq<AccumulatorModel>,
    list: Seq<ObservationModel>,
) -> bool {
    &&& states.len() == list.len() + 1
    &&& forall|i: int|
        0 <= i < list.len() ==> (#[trigger] states[i]).recorded(list[i], states[i + 1])
}

/// The mismatches among observations, in their order.
pub open spec fn mismatches_in(list: Seq<ObservationModel>) -> Seq<ObservationModel>
    decreases list.len(),
{
    if list.len() == 0 {
        seq![]
    } else if list.last().outcome == ComparisonOutcome::Mismatch {
        mismatches_in(list.drop_last()).push(list.last())
    } else {
        mismatches_in(list.drop_last())
    }
}

/// The first mismatches are kept in the order in which they were recorded, as many as there is
/// place for. Every other mismatch is counted as left out, and nothing else is kept or counted:
/// how many matches and unavailable results there were does not show.
pub proof fn only_mismatches_are_retained(
    states: Seq<AccumulatorModel>,
    list: Seq<ObservationModel>,
)
    requires
        recorded_all(states, list),
        states[0].mismatches.len() == 0,
        states[0].beyond == 0,
    ensures
        ({
            let found = mismatches_in(list);
            let last = states.last();
            &&& last.cap == states[0].cap
            &&& last.mismatches == found.take(
                if found.len() < last.cap {
                    found.len() as int
                } else {
                    last.cap as int
                },
            )
            &&& last.mismatches.len() + last.beyond == found.len()
        }),
    decreases list.len(),
{
    let found = mismatches_in(list);
    if list.len() == 0 {
        assert(states.last().mismatches =~= found.take(0));
    } else {
        let n = list.len() - 1;
        let before = states.drop_last();
        let rest = list.drop_last();
        lemma_shorter(states, list);
        only_mismatches_are_retained(before, rest);
        assert(states[n].recorded(list[n], states[n + 1]));
        let last = states.last();
        let end = if found.len() < last.cap {
            found.len() as int
        } else {
            last.cap as int
        };
        assert(last.mismatches =~= found.take(end));
    }
}

proof fn lemma_shorter(states: Seq<AccumulatorModel>, list: Seq<ObservationModel>)
    requires
        recorded_all(states, list),
        list.len() > 0,
    ensures
        recorded_all(states.drop_last(), list.drop_last()),
{
    let before = states.drop_last();
    let rest = list.drop_last();
    assert forall|i: int| 0 <= i < rest.len() implies (#[trigger] before[i]).recorded(
        rest[i],
        before[i + 1],
    ) by {
        assert(states[i].recorded(list[i], states[i + 1]));
    }
}

/// There is one check for each identifier that was recorded, and no other.
pub proof fn checks_are_those_recorded(
    states: Seq<AccumulatorModel>,
    list: Seq<ObservationModel>,
    check: Seq<char>,
)
    requires
        recorded_all(states, list),
        states[0].checks == Map::<Seq<char>, CheckCounts>::empty(),
    ensures
        states.last().checks.dom().contains(check) == exists|i: int|
            0 <= i < list.len() && (#[trigger] list[i]).check_id == check,
    decreases list.len(),
{
    if list.len() > 0 {
        let n = list.len() - 1;
        let rest = list.drop_last();
        lemma_shorter(states, list);
        checks_are_those_recorded(states.drop_last(), rest, check);
        assert(states[n].recorded(list[n], states[n + 1]));
        if exists|i: int| 0 <= i < rest.len() && (#[trigger] rest[i]).check_id == check {
            let i = choose|i: int| 0 <= i < rest.len() && (#[trigger] rest[i]).check_id == check;
            assert(list[i] == rest[i]);
        }
        if exists|i: int| 0 <= i < list.len() && (#[trigger] list[i]).check_id == check {
            let i = choose|i: int| 0 <= i < list.len() && (#[trigger] list[i]).check_id == check;
            if i < n {
                assert(rest[i] == list[i]);
            }
        }
        assert(list[n] == list.last());
    }
}

pub struct ConsistencyAccumulator {
    checks: TextMap<CheckCounts>,
    private_mismatches: Vec<PrivateConsistencyObservation>,
    private_mismatch_cap: usize,
    private_mismatches_beyond_cap: u64,
}

impl View for ConsistencyAccumulator {
    type V = AccumulatorModel;

    closed spec fn view(&self) -> AccumulatorModel {
        AccumulatorModel {
            checks: self.checks@,
            mismatches: observations(self.private_mismatches@),
            cap: self.private_mismatch_cap as nat,
            beyond: self.private_mismatches_beyond_cap as nat,
        }
    }
}

impl Default for ConsistencyAccumulator {
    fn default() -> (r: Self)
        ensures
            r.wf(),
            r@.checks == Map::<Seq<char>, CheckCounts>::empty(),
            r@.mismatches.len() == 0,
            r@.cap == DEFAULT_MAX_PRIVATE_CONSISTENCY_OBSERVATIONS,
            r@.beyond == 0,
    {
        ConsistencyAccumulator::new(DEFAULT_MAX_PRIVATE_CONSISTENCY_OBSERVATIONS)
    }
}

/// Whether the summaries list the checks in the order on texts, each with its outcomes.
pub open spec fn are_checks(
    list: Seq<ConsistencyCheckSummary>,
    checks: Map<Seq<char>, CheckCounts>,
) -> bool {
    &&& check_ids(list) == ordered_texts(checks.dom())
    &&& forall|i: int|
        0 <= i < list.len() ==> {
            let counts = checks[(#[trigger] list[i]).check_id@];
            &&& list[i].matches == counts.matches
            &&& list[i].mismatches == counts.mismatches
            &&& list[i].unavailable == counts.unavailable
            &&& list[i].unavailable_reasons == counts.reasons
        }
}

/// The identifiers of reported checks.
pub open spec fn check_ids(list: Seq<ConsistencyCheckSummary>) -> Seq<Seq<char>> {
    list.map_values(|c: ConsistencyCheckSummary| c.check_id@)
}

/// The mismatches of all reported checks together.
pub open spec fn total_mismatches(list: Seq<ConsistencyCheckSummary>) -> nat
    decreases list.len(),
{
    if list.len() == 0 {
        0
    } else {
        total_mismatches(list.drop_last()) + list.last().mismatches as nat
    }
}

/// Whether each unavailable outcome of a check has one reason.
pub open spec fn reasons_add_up(check: ConsistencyCheckSummary) -> bool {
    check.unavailable == check.unavailable_reasons.reference_data_missing
        + check.unavailable_reasons.telemetry_does_not_expose
        + check.unavailable_reasons.observed_value_missing
}

proof fn lemma_total_is_list_sum(
    list: Seq<ConsistencyCheckSummary>,
    checks: Map<Seq<char>, CheckCounts>,
)
    requires
        forall|i: int|
            0 <= i < list.len() ==> checks.dom().contains((#[trigger] list[i]).check_id@)
                && list[i].mismatches == checks[list[i].check_id@].mismatches,
    ensures
        total_mismatches(list) == list_sum(check_ids(list), mismatch_counts(checks)),
    decreases list.len(),
{
    if list.len() > 0 {
        assert forall|i: int| 0 <= i < list.drop_last().len() implies checks.dom().contains(
            (#[trigger] list.drop_last()[i]).check_id@,
        ) && list.drop_last()[i].mismatches == checks[list.drop_last()[i].check_id@].mismatches by {
            assert(list[i] == list.drop_last()[i]);
        }
        lemma_total_is_list_sum(list.drop_last(), checks);
        assert(check_ids(list).drop_last() =~= check_ids(list.drop_last()));
        assert(list[list.len() - 1] == list.last());
    }
}

/// Reported checks stand in the order of their identifiers, each unavailable outcome has one
/// reason, and their mismatches are those that were kept or left out.
pub proof fn reported_checks_add_up(list: Seq<ConsistencyCheckSummary>, m: AccumulatorModel)
    requires
        m.wf(),
        are_checks(list, m.checks),
    ensures
        increasing(check_ids(list)),
        check_ids(list).to_set() == m.checks.dom(),
        forall|i: int| 0 <= i < list.len() ==> reasons_add_up(#[trigger] list[i]),
        total_mismatches(list) == m.mismatches.len() + m.beyond,
{
    let ids = check_ids(list);
    ordered_texts_lists_the_members(m.checks.dom());
    assert forall|i: int| 0 <= i < list.len() implies m.checks.dom().contains(
        (#[trigger] list[i]).check_id@,
    ) by {
        assert(ids[i] == list[i].check_id@);
        assert(ids.to_set().contains(ids[i]));
    }
    lemma_total_is_list_sum(list, m.checks);
    lemma_increasing_distinct(ids);
    assert(mismatch_counts(m.checks).dom() =~= m.checks.dom());
    lemma_list_sum_total(ids, mismatch_counts(m.checks));
}

impl ConsistencyAccumulator {
    pub closed spec fn wf(&self) -> bool {
        self.checks.wf() && self@.wf()
    }

    pub fn new(private_cap: usize) -> (r: Self)
        ensures
            r.wf(),
            r@.checks == Map::<Seq<char>, CheckCounts>::empty(),
            r@.mismatches.len() == 0,
            r@.cap == private_cap,
            r@.beyond == 0,
    {
        let r = ConsistencyAccumulator {
            checks: TextMap::new(),
            private_mismatches: Vec::new(),
            private_mismatch_cap: private_cap,
            private_mismatches_beyond_cap: 0,
        };
        proof {
            r.checks.lemma_positions();
            assert(mismatch_counts(r@.checks) =~= Map::<Seq<char>, nat>::empty());
            lemma_sum_empty::<Seq<char>>();
        }
        r
    }

    fn counts_of(&self, check_id: &str) -> (r: CheckCounts)
        requires
            self.wf(),
        ensures
            r == self@.counts(check_id@),
            r.wf(),
    {
        match self.checks.get(check_id) {
            Some(counts) => *counts,
            None => CheckCounts {
                matches: 0,
                mismatches: 0,
                unavailable: 0,
                reasons: UnavailableReasonCounts {
                    reference_data_missing: 0,
                    telemetry_does_not_expose: 0,
                    observed_value_missing: 0,
                },
            },
        }
    }

    /// Whether one more outcome of a check can be counted.
    pub fn can_record(&self, check_id: &str, outcome: ComparisonOutcome) -> (r: bool)
        requires
            self.wf(),
        ensures
            r == self@.room(check_id@, outcome),
    {
        let counts = self.counts_of(check_id);
        match outcome {
            ComparisonOutcome::Match => counts.matches < u64::MAX,
            ComparisonOutcome::Mismatch => counts.mismatches < u64::MAX && (
            self.private_mismatches.len() < self.private_mismatch_cap
                || self.private_mismatches_beyond_cap < u64::MAX),
            ComparisonOutcome::Unavailable => counts.unavailable < u64::MAX,
        }
    }

    pub fn record(
        &mut self,
        check_id: &str,
        declared_attribute: &str,
        declared_value: &str,
        observed_attribute: &str,
        observed_value: Option<&str>,
        result: ComparisonResult,
    )
        requires
            old(self).wf(),
            old(self)@.room(check_id@, result.outcome),
            explained(result),
        ensures
            final(self).wf(),
            old(self)@.recorded(
                ObservationModel {
                    check_id: check_id@,
                    declared_attribute: declared_attribute@,
                    declared_value: declared_value@,
                    observed_attribute: observed_attribute@,
                    observed_value: opt_str(observed_value),
                    outcome: result.outcome,
                    unavailable_reason: result.unavailable_reason,
                },
                final(self)@,
            ),
    {
        let ghost before = self@;
        let counts = count_result(self.counts_of(check_id), result);
        self.checks.insert(check_id.to_owned(), counts);
        proof {
            self.checks.lemma_positions();
            assert(self@.checks =~= before.checks.insert(check_id@, counts));
            assert(self@.checks.dom() =~= before.checks.dom().insert(check_id@));
            assert(mismatch_counts(before.checks).dom() =~= before.checks.dom());
            assert(mismatch_counts(self@.checks) =~= mismatch_counts(before.checks).insert(
                check_id@,
                counts.mismatches as nat,
            ));
            lemma_sum_insert(
                mismatch_counts(before.checks),
                check_id@,
                counts.mismatches as nat,
            );
        }
        match result.outcome {
            ComparisonOutcome::Mismatch => {
                if self.private_mismatches.len() < self.private_mismatch_cap {
                    let value = match observed_value {
                        Some(text) => Some(text.to_owned()),
                        None => None,
                    };
                    let kept = PrivateConsistencyObservation {
                        check_id: check_id.to_owned(),
                        declared_attribute: declared_attribute.to_owned(),
                        declared_value: declared_value.to_owned(),
                        observed_attribute: observed_attribute.to_owned(),
                        observed_value: value,
                        outcome: result.outcome,
                        unavailable_reason: result.unavailable_reason,
                    };
                    let ghost o = kept@;
                    self.private_mismatches.push(kept);
                    assert(self@.mismatches =~= before.mismatches.push(o));
                } else {
                    self.private_mismatches_beyond_cap = self.private_mismatches_beyond_cap + 1;
                }
            },
            _ => {},
        }
    }

    fn summaries(&self) -> (r: Vec<ConsistencyCheckSummary>)
        requires
            self.wf(),
        ensures
            are_checks(r@, self@.checks),
    {
        let mut r: Vec<ConsistencyCheckSummary> = Vec::new();
        let count = self.checks.len();
        proof {
            self.checks.lemma_order();
            self.checks.lemma_positions();
        }
        let mut i: usize = 0;
        while i < count
            invariant
                self.wf(),
                count == self.checks.key_seq().len(),
                i <= count,
                r@.len() == i,
                forall|j: int|
                    0 <= j < i ==> {
                        let counts = self@.checks[(#[trigger] r@[j]).check_id@];
                        &&& r@[j].check_id@ == self.checks.key_seq()[j]
                        &&& r@[j].matches == counts.matches
                        &&& r@[j].mismatches == counts.mismatches
                        &&& r@[j].unavailable == counts.unavailable
                        &&& r@[j].unavailable_reasons == counts.reasons
                    },
            decreases count - i,
        {
            let counts = self.checks.value_at(i);
            r.push(
                ConsistencyCheckSummary {
                    check_id: self.checks.key_at(i).clone(),
                    matches: counts.matches,
                    mismatches: counts.mismatches,
                    unavailable: counts.unavailable,
                    unavailable_reasons: counts.reasons,
                },
            );
            i = i + 1;
        }
        assert(check_ids(r@) =~= self.checks.key_seq());
        r
    }

    /// The aggregate outcomes, and apart from them the private report.
    pub fn reports(self) -> (r: (ConsistencySummary, PrivateConsistencyReport))
        requires
            self.wf(),
        ensures
            are_checks(r.0.checks@, self@.checks),
            r.0.private_observations_beyond_cap == self@.beyond,
            r.1.report_kind@ == "DECLARED_OBSERVED_CONSISTENCY_PRIVATE"@,
            r.1.safety_note@ == CONSISTENCY_SAFETY_NOTE@,
            are_checks(r.1.checks@, self@.checks),
            observations(r.1.mismatch_observations@) == self@.mismatches,
            r.1.mismatch_observations_beyond_cap == self@.beyond,
            increasing(check_ids(r.0.checks@)),
            check_ids(r.1.checks@) == check_ids(r.0.checks@),
            forall|i: int|
                0 <= i < r.0.checks@.len() ==> reasons_add_up(#[trigger] r.0.checks@[i]),
            total_mismatches(r.0.checks@) == r.1.mismatch_observations@.len()
                + r.1.mismatch_observations_beyond_cap,
            total_mismatches(r.1.checks@) == total_mismatches(r.0.checks@),
            r.1.mismatch_observations@.len() <= self@.cap,
            r.1.mismatch_observations_beyond_cap > 0 ==> r.1.mismatch_observations@.len()
                == self@.cap,
    {
        let checks = self.summaries();
        let private_checks = self.summaries();
        proof {
            reported_checks_add_up(checks@, self@);
            reported_checks_add_up(private_checks@, self@);
        }
        (
            ConsistencySummary {
                checks,
                private_observations_beyond_cap: self.private_mismatches_beyond_cap,
            },
            PrivateConsistencyReport {
                report_kind: "DECLARED_OBSERVED_CONSISTENCY_PRIVATE".to_owned(),
                safety_note: CONSISTENCY_SAFETY_NOTE.to_owned(),
                checks: private_checks,
                mismatch_observations: self.private_mismatches,
                mismatch_observations_beyond_cap: self.private_mismatches_beyond_cap,
            },
        )
    }
}

/// The browser family that a user agent declares.
pub open spec fn declared_family(agent: Seq<char>) -> Option<Seq<char>> {
    if contains_text(agent, "Firefox/"@) {
        Some("firefox"@)
    } else if contains_text(agent, "Chrome/"@) || contains_text(agent, "Chromium/"@) {
        Some("chromium"@)
    } else if contains_text(agent, "Safari/"@) {
        Some("safari"@)
    } else {
        None
    }
}

/// A coarse self-declared browser family, for a comparison with a reference table.
pub fn declared_browser_family(user_agent: Option<&str>) -> (r: Option<&'static str>)
    ensures
        opt_str(r) == (match user_agent {
            Some(agent) => declared_family(agent@),
            None => None,
        }),
{
    let agent = match user_agent {
        Some(agent) => agent,
        None => {
            return None;
        },
    };
    if contains(agent, "Firefox/") {
        Some("firefox")
    } else if contains(agent, "Chrome/") || contains(agent, "Chromium/") {
        Some("chromium")
    } else if contains(agent, "Safari/") {
        Some("safari")
    } else {
        None
    }
}

} // verus!
