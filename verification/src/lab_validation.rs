//! Validation of findings against the ground truth of a synthetic corpus.

use crate::lab::{TruthClass, TruthRecord};
use crate::numbers::Ratio;
use crate::ordered::{ordered_texts, ordered_texts_lists_the_members, TextMap, TextSet};
use crate::text::{decimal, opt_text, push_decimal, texts};
use vstd::prelude::*;
use vstd::string::*;

verus! {

broadcast use vstd::string::group_string_axioms;

#[derive(Clone, Debug)]
pub struct Failure {
    pub case_id: String,
    pub status: String,
    pub category: String,
    pub expected_rule: Option<String>,
    pub details: String,
}

pub struct FailureModel {
    pub case_id: Seq<char>,
    pub status: Seq<char>,
    pub category: Seq<char>,
    pub expected_rule: Option<Seq<char>>,
    pub details: Seq<char>,
}

impl View for Failure {
    type V = FailureModel;

    open spec fn view(&self) -> FailureModel {
        FailureModel {
            case_id: self.case_id@,
            status: self.status@,
            category: self.category@,
            expected_rule: opt_text(self.expected_rule),
            details: self.details@,
        }
    }
}

pub open spec fn failure_models(list: Seq<Failure>) -> Seq<FailureModel> {
    list.map_values(|f: Failure| f@)
}

#[derive(Clone, Copy, Debug, PartialEq, Eq, Structural)]
pub struct Metrics {
    pub events: usize,
    pub expected_malicious: usize,
    pub expected_benign: usize,
    pub expected_detections: usize,
    pub detected_expected: usize,
    pub missed: usize,
    pub unexpected_matches: usize,
    pub parser_errors: usize,
    pub true_positives: usize,
    pub false_negatives: usize,
    pub false_positives: usize,
    pub true_negatives: usize,
}

#[derive(Debug)]
pub struct ValidationReport {
    pub status: String,
    pub metrics: Metrics,
    pub recall: Option<Ratio>,
    pub precision: Option<Ratio>,
    pub false_positive_rate: Option<Ratio>,
    pub failures: Vec<Failure>,
}

/// The rules that found a case.
pub open spec fn found_rules(actual: Map<Seq<char>, TextSet>, id: Seq<char>) -> Set<Seq<char>> {
    if actual.dom().contains(id) {
        actual[id]@
    } else {
        Set::empty()
    }
}

/// The rules that are expected to find a case.
pub open spec fn wanted_rules(record: TruthRecord) -> Set<Seq<char>> {
    texts(record.expected.expected_rule_ids@).to_set()
}

/// What a case adds to the counts.
pub struct CaseCounts {
    pub malicious: nat,
    pub benign: nat,
    pub wanted: nat,
    pub detected: nat,
    pub missed: nat,
    pub unexpected: nat,
    pub true_positives: nat,
    pub false_negatives: nat,
    pub false_positives: nat,
    pub true_negatives: nat,
}

pub open spec fn one_if(b: bool) -> nat {
    if b {
        1
    } else {
        0
    }
}

/// What a case counts for. A malicious case is a true positive where every rule that is expected
/// to find it did; a benign case is a true negative where no rule found it.
pub open spec fn case_counts(
    class: TruthClass,
    wanted: Set<Seq<char>>,
    found: Set<Seq<char>>,
) -> CaseCounts {
    let bad = class == TruthClass::Malicious;
    let good = class == TruthClass::Benign;
    let whole = wanted.subset_of(found);
    CaseCounts {
        malicious: one_if(bad),
        benign: one_if(good),
        wanted: wanted.len(),
        detected: wanted.intersect(found).len(),
        missed: wanted.difference(found).len(),
        unexpected: found.difference(wanted).len(),
        true_positives: one_if(bad && wanted.len() > 0 && whole),
        false_negatives: one_if(bad && wanted.len() > 0 && !whole),
        false_positives: one_if(good && found.len() > 0),
        true_negatives: one_if(good && found.len() == 0),
    }
}

pub open spec fn counts_sum(a: CaseCounts, b: CaseCounts) -> CaseCounts {
    CaseCounts {
        malicious: a.malicious + b.malicious,
        benign: a.benign + b.benign,
        wanted: a.wanted + b.wanted,
        detected: a.detected + b.detected,
        missed: a.missed + b.missed,
        unexpected: a.unexpected + b.unexpected,
        true_positives: a.true_positives + b.true_positives,
        false_negatives: a.false_negatives + b.false_negatives,
        false_positives: a.false_positives + b.false_positives,
        true_negatives: a.true_negatives + b.true_negatives,
    }
}

pub open spec fn no_counts() -> CaseCounts {
    CaseCounts {
        malicious: 0,
        benign: 0,
        wanted: 0,
        detected: 0,
        missed: 0,
        unexpected: 0,
        true_positives: 0,
        false_negatives: 0,
        false_positives: 0,
        true_negatives: 0,
    }
}

/// What a list of cases counts for.
pub open spec fn total_counts(
    ids: Seq<Seq<char>>,
    truth: Map<Seq<char>, TruthRecord>,
    actual: Map<Seq<char>, TextSet>,
) -> CaseCounts
    decreases ids.len(),
{
    if ids.len() == 0 {
        no_counts()
    } else {
        let id = ids.last();
        counts_sum(
            total_counts(ids.drop_last(), truth, actual),
            case_counts(truth[id].expected.class, wanted_rules(truth[id]), found_rules(actual, id)),
        )
    }
}

pub open spec fn failed(
    id: Seq<char>,
    category: Seq<char>,
    rule: Option<Seq<char>>,
    details: Seq<char>,
) -> FailureModel {
    FailureModel {
        case_id: id,
        status: "failed"@,
        category,
        expected_rule: rule,
        details,
    }
}

pub open spec fn missed_failure(id: Seq<char>, rule: Seq<char>) -> FailureModel {
    failed(
        id,
        "EXPECTED_RULE_MISSED"@,
        Some(rule),
        "the expected rule did not produce a finding"@,
    )
}

pub open spec fn unexpected_failure(id: Seq<char>, rule: Seq<char>) -> FailureModel {
    failed(
        id,
        "EXPECTED_BEHAVIOR_ERROR"@,
        None,
        "unexpected finding from rule `"@ + rule + "`"@,
    )
}

/// The failures of a case: the rules that missed it, and those that should not have found it,
/// each in the order on texts.
pub open spec fn case_failures(id: Seq<char>, wanted: Set<Seq<char>>, found: Set<Seq<char>>) -> Seq<
    FailureModel,
> {
    ordered_texts(wanted.difference(found)).map_values(|rule: Seq<char>| missed_failure(id, rule))
        + ordered_texts(found.difference(wanted)).map_values(
        |rule: Seq<char>| unexpected_failure(id, rule),
    )
}

/// The failures of a list of cases.
pub open spec fn total_failures(
    ids: Seq<Seq<char>>,
    truth: Map<Seq<char>, TruthRecord>,
    actual: Map<Seq<char>, TextSet>,
) -> Seq<FailureModel>
    decreases ids.len(),
{
    if ids.len() == 0 {
        seq![]
    } else {
        let id = ids.last();
        total_failures(ids.drop_last(), truth, actual) + case_failures(
            id,
            wanted_rules(truth[id]),
            found_rules(actual, id),
        )
    }
}

pub open spec fn parser_failures(errors: nat, expected: nat) -> Seq<FailureModel> {
    if errors == expected {
        seq![]
    } else {
        seq![
            failed(
                "parser"@,
                "PARSER_ERROR"@,
                None,
                "expected "@ + decimal(expected) + " parser errors, observed "@ + decimal(errors),
            ),
        ]
    }
}

/// A share; none of nothing.
pub open spec fn share(part: nat, rest: nat) -> Option<Ratio> {
    if part + rest == 0 {
        None
    } else {
        Some(Ratio { numerator: part as u64, denominator: (part + rest) as u64 })
    }
}

/// Whether the rules of both sides can be counted.
pub open spec fn can_be_counted(
    truth: Map<Seq<char>, TruthRecord>,
    actual: Map<Seq<char>, TextSet>,
) -> bool {
    let c = total_counts(ordered_texts(truth.dom()), truth, actual);
    c.wanted <= usize::MAX && c.unexpected <= usize::MAX
}

/// Whether metrics hold the given counts.
pub open spec fn are_metrics(m: Metrics, c: CaseCounts, events: nat, errors: usize) -> bool {
    &&& m.events == events
    &&& m.parser_errors == errors
    &&& m.expected_malicious == c.malicious
    &&& m.expected_benign == c.benign
    &&& m.expected_detections == c.wanted
    &&& m.detected_expected == c.detected
    &&& m.missed == c.missed
    &&& m.unexpected_matches == c.unexpected
    &&& m.true_positives == c.true_positives
    &&& m.false_negatives == c.false_negatives
    &&& m.false_positives == c.false_positives
    &&& m.true_negatives == c.true_negatives
}

/// Whether a report validates findings against the ground truth.
pub open spec fn is_validation(
    r: ValidationReport,
    truth: Map<Seq<char>, TruthRecord>,
    actual: Map<Seq<char>, TextSet>,
    errors: usize,
    expected: usize,
) -> bool {
    let ids = ordered_texts(truth.dom());
    let c = total_counts(ids, truth, actual);
    &&& are_metrics(r.metrics, c, truth.dom().len(), errors)
    &&& failure_models(r.failures@) == parser_failures(errors as nat, expected as nat)
        + total_failures(ids, truth, actual)
    &&& r.status@ == if r.failures@.len() == 0 {
        "PASS"@
    } else {
        "FAIL"@
    }
    &&& r.recall == share(c.true_positives, c.false_negatives)
    &&& r.precision == share(c.true_positives, c.false_positives)
    &&& r.false_positive_rate == share(c.false_positives, c.true_negatives)
}

fn push_failure(list: &mut Vec<Failure>, failure: Failure)
    ensures
        failure_models(final(list)@) == failure_models(old(list)@).push(failure@),
{
    let ghost before = list@;
    let ghost model = failure@;
    list.push(failure);
    assert(failure_models(list@) =~= failure_models(before).push(model));
}

fn failure(id: &str, category: &str, rule: Option<String>, details: String) -> (r: Failure)
    ensures
        r@ == failed(id@, category@, opt_text(rule), details@),
{
    Failure {
        case_id: id.to_owned(),
        status: "failed".to_owned(),
        category: category.to_owned(),
        expected_rule: rule,
        details,
    }
}

/// The members of one set that another does not have, in the order on texts.
fn difference(a: &TextSet, b: &TextSet) -> (r: Vec<String>)
    requires
        a.wf(),
        b.wf(),
    ensures
        texts(r@) == ordered_texts(a@.difference(b@)),
        r@.len() == a@.difference(b@).len(),
{
    let r = crate::comparison::members_without(a, b);
    proof {
        a.lemma_members();
        ordered_texts_lists_the_members(a@.difference(b@));
        assert(texts(r@).len() == r@.len());
    }
    r
}

fn wanted_set(record: &TruthRecord) -> (r: TextSet)
    ensures
        r.wf(),
        r@ == wanted_rules(*record),
{
    let list = &record.expected.expected_rule_ids;
    let mut r = TextSet::new();
    let mut i: usize = 0;
    assert(texts(list@).take(0).to_set() =~= Set::<Seq<char>>::empty());
    while i < list.len()
        invariant
            r.wf(),
            i <= list@.len(),
            r@ == texts(list@).take(i as int).to_set(),
        decreases list.len() - i,
    {
        let ghost done = texts(list@).take(i as int);
        let ghost next = texts(list@).take(i + 1);
        r.insert(list[i].clone());
        proof {
            assert(next =~= done.push(list@[i as int]@));
            assert(next.to_set() =~= done.to_set().insert(list@[i as int]@)) by {
                assert forall|k: Seq<char>| next.to_set().contains(k) == done.to_set().insert(
                    list@[i as int]@,
                ).contains(k) by {
                    if done.to_set().contains(k) {
                        let n = done.index_of(k);
                        assert(next[n] == k);
                    }
                    assert(next[done.len() as int] == list@[i as int]@);
                    if next.to_set().contains(k) {
                        let n = next.index_of(k);
                        if n < done.len() {
                            assert(done[n] == k);
                        }
                    }
                }
            }
        }
        i = i + 1;
    }
    assert(texts(list@).take(i as int) =~= texts(list@));
    r
}

proof fn lemma_parts(a: Set<Seq<char>>, b: Set<Seq<char>>)
    requires
        a.finite(),
    ensures
        a.difference(b).len() + a.intersect(b).len() == a.len(),
        a.subset_of(b) == (a.difference(b).len() == 0),
{
    let without = a.difference(b);
    let both = a.intersect(b);
    assert(without + both =~= a);
    vstd::set_lib::lemma_set_disjoint_lens(without, both);
    if a.difference(b).len() == 0 {
        assert forall|x: Seq<char>| a.contains(x) implies b.contains(x) by {
            if !b.contains(x) {
                assert(without.contains(x));
                vstd::set_lib::lemma_set_empty_equivalency_len(without);
            }
        }
    } else if a.subset_of(b) {
        assert(without =~= Set::<Seq<char>>::empty());
    }
}

/// What has been counted and reported.
struct Progress {
    metrics: Metrics,
    failures: Vec<Failure>,
}

proof fn lemma_totals_grow(
    ids: Seq<Seq<char>>,
    truth: Map<Seq<char>, TruthRecord>,
    actual: Map<Seq<char>, TextSet>,
    n: int,
)
    requires
        0 <= n <= ids.len(),
    ensures
        total_counts(ids.take(n), truth, actual).wanted <= total_counts(ids, truth, actual).wanted,
        total_counts(ids.take(n), truth, actual).unexpected <= total_counts(
            ids,
            truth,
            actual,
        ).unexpected,
    decreases ids.len() - n,
{
    if n == ids.len() {
        assert(ids.take(n) =~= ids);
    } else {
        assert(ids.take(n + 1).drop_last() =~= ids.take(n));
        lemma_totals_grow(ids, truth, actual, n + 1);
    }
}

/// No count is larger than the number of cases, or of rules that were expected.
pub proof fn counts_are_bounded(
    ids: Seq<Seq<char>>,
    truth: Map<Seq<char>, TruthRecord>,
    actual: Map<Seq<char>, TextSet>,
)
    ensures
        ({
            let c = total_counts(ids, truth, actual);
            &&& c.malicious + c.benign <= ids.len()
            &&& c.true_positives + c.false_negatives <= c.malicious
            &&& c.false_positives + c.true_negatives == c.benign
            &&& c.detected + c.missed == c.wanted
        }),
    decreases ids.len(),
{
    if ids.len() > 0 {
        counts_are_bounded(ids.drop_last(), truth, actual);
        let id = ids.last();
        let wanted = wanted_rules(truth[id]);
        lemma_wanted_finite(truth[id]);
        lemma_parts(wanted, found_rules(actual, id));
    }
}

proof fn lemma_wanted_finite(record: TruthRecord)
    ensures
        wanted_rules(record).finite(),
{
    vstd::seq_lib::seq_to_set_is_finite(texts(record.expected.expected_rule_ids@));
}

impl Progress {
    /// Reports the rules that missed a case, and those that should not have found it.
    fn report(
        &mut self,
        id: &str,
        missed: &Vec<String>,
        unexpected: &Vec<String>,
    )
        ensures
            final(self).metrics == old(self).metrics,
            failure_models(final(self).failures@) == failure_models(old(self).failures@) + (texts(
                missed@,
            ).map_values(|rule: Seq<char>| missed_failure(id@, rule)) + texts(
                unexpected@,
            ).map_values(|rule: Seq<char>| unexpected_failure(id@, rule))),
    {
        let ghost before = failure_models(self.failures@);
        let ghost first = texts(missed@).map_values(|rule: Seq<char>| missed_failure(id@, rule));
        let ghost second = texts(unexpected@).map_values(
            |rule: Seq<char>| unexpected_failure(id@, rule),
        );
        let ghost metrics = self.metrics;
        let mut i: usize = 0;
        assert(before + first.take(0) =~= before);
        while i < missed.len()
            invariant
                first == texts(missed@).map_values(|rule: Seq<char>| missed_failure(id@, rule)),
                i <= missed@.len(),
                self.metrics == metrics,
                failure_models(self.failures@) == before + first.take(i as int),
            decreases missed.len() - i,
        {
            push_failure(
                &mut self.failures,
                failure(
                    id,
                    "EXPECTED_RULE_MISSED",
                    Some(missed[i].clone()),
                    "the expected rule did not produce a finding".to_owned(),
                ),
            );
            assert(first[i as int] == missed_failure(id@, missed@[i as int]@));
            assert(before + first.take(i + 1) =~= (before + first.take(i as int)).push(
                first[i as int],
            ));
            i = i + 1;
        }
        assert(first.take(i as int) =~= first);
        let mut k: usize = 0;
        assert(before + first + second.take(0) =~= before + first);
        while k < unexpected.len()
            invariant
                second == texts(unexpected@).map_values(
                    |rule: Seq<char>| unexpected_failure(id@, rule),
                ),
                k <= unexpected@.len(),
                self.metrics == metrics,
                failure_models(self.failures@) == before + first + second.take(k as int),
            decreases unexpected.len() - k,
        {
            let mut details = "unexpected finding from rule `".to_owned();
            details.append(unexpected[k].as_str());
            details.append("`");
            push_failure(
                &mut self.failures,
                failure(id, "EXPECTED_BEHAVIOR_ERROR", None, details),
            );
            assert(second[k as int] == unexpected_failure(id@, unexpected@[k as int]@));
            assert(before + first + second.take(k + 1) =~= (before + first + second.take(
                k as int,
            )).push(second[k as int]));
            k = k + 1;
        }
        assert(second.take(k as int) =~= second);
        assert(before + first + second =~= before + (first + second));
    }
}

/// The metrics with one more case.
fn count_case(
    m: Metrics,
    class: TruthClass,
    wanted: usize,
    found: usize,
    missed: usize,
    unexpected: usize,
    totals: Ghost<CaseCounts>,
    case: Ghost<CaseCounts>,
    sets: Ghost<(Set<Seq<char>>, Set<Seq<char>>)>,
) -> (r: Metrics)
    requires
        are_metrics(m, totals@, m.events as nat, m.parser_errors),
        sets@.0.finite(),
        sets@.1.finite(),
        case@ == case_counts(class, sets@.0, sets@.1),
        wanted == sets@.0.len(),
        found == sets@.1.len(),
        missed == sets@.0.difference(sets@.1).len(),
        unexpected == sets@.1.difference(sets@.0).len(),
        totals@.wanted + case@.wanted <= usize::MAX,
        totals@.unexpected + case@.unexpected <= usize::MAX,
        totals@.detected + totals@.missed == totals@.wanted,
        totals@.malicious < usize::MAX,
        totals@.benign < usize::MAX,
        totals@.true_positives + totals@.false_negatives <= totals@.malicious,
        totals@.false_positives + totals@.true_negatives == totals@.benign,
    ensures
        are_metrics(r, counts_sum(totals@, case@), m.events as nat, m.parser_errors),
{
    proof {
        lemma_parts(sets@.0, sets@.1);
    }
    let mut r = m;
    r.expected_detections = r.expected_detections + wanted;
    r.missed = r.missed + missed;
    r.detected_expected = r.detected_expected + (wanted - missed);
    r.unexpected_matches = r.unexpected_matches + unexpected;
    match class {
        TruthClass::Malicious => {
            r.expected_malicious = r.expected_malicious + 1;
            if wanted > 0 {
                if missed == 0 {
                    r.true_positives = r.true_positives + 1;
                } else {
                    r.false_negatives = r.false_negatives + 1;
                }
            }
        },
        TruthClass::Benign => {
            r.expected_benign = r.expected_benign + 1;
            if found == 0 {
                r.true_negatives = r.true_negatives + 1;
            } else {
                r.false_positives = r.false_positives + 1;
            }
        },
        TruthClass::Unknown => {},
    }
    r
}

fn share_of(part: usize, rest: usize) -> (r: Option<Ratio>)
    requires
        part + rest <= usize::MAX,
    ensures
        r == share(part as nat, rest as nat),
{
    if part + rest == 0 {
        None
    } else {
        Some(Ratio { numerator: part as u64, denominator: (part + rest) as u64 })
    }
}

/// Whether the rules of both sides can be counted.
pub fn countable(truth: &TextMap<TruthRecord>, actual: &TextMap<TextSet>) -> (r: bool)
    requires
        truth.wf(),
        actual.wf(),
        forall|id: Seq<char>| #[trigger] actual@.dom().contains(id) ==> actual@[id].wf(),
    ensures
        r == can_be_counted(truth@, actual@),
{
    let ghost ids = ordered_texts(truth@.dom());
    proof {
        truth.lemma_order();
        truth.lemma_positions();
    }
    let count = truth.len();
    let nothing = TextSet::new();
    let mut expected: usize = 0;
    let mut surplus: usize = 0;
    let mut i: usize = 0;
    while i < count
        invariant
            truth.wf(),
            actual.wf(),
            forall|id: Seq<char>| #[trigger] actual@.dom().contains(id) ==> actual@[id].wf(),
            nothing.wf(),
            nothing@ == Set::<Seq<char>>::empty(),
            ids == ordered_texts(truth@.dom()),
            ids == truth.key_seq(),
            count == ids.len(),
            i <= count,
            expected == total_counts(ids.take(i as int), truth@, actual@).wanted,
            surplus == total_counts(ids.take(i as int), truth@, actual@).unexpected,
        decreases count - i,
    {
        let id = truth.key_at(i);
        let wanted = wanted_set(truth.value_at(i));
        let found = match actual.get(id.as_str()) {
            Some(rules) => rules,
            None => &nothing,
        };
        let unexpected = difference(found, &wanted);
        proof {
            assert(ids.take(i + 1).drop_last() =~= ids.take(i as int));
            assert(ids.take(i + 1).last() == id@);
            assert(found@ == found_rules(actual@, id@));
            wanted.lemma_members();
            lemma_totals_grow(ids, truth@, actual@, i + 1);
        }
        match (expected.checked_add(wanted.len()), surplus.checked_add(unexpected.len())) {
            (Some(a), Some(b)) => {
                expected = a;
                surplus = b;
            },
            _ => {
                return false;
            },
        }
        i = i + 1;
    }
    assert(ids.take(i as int) =~= ids);
    true
}

/// Validates the rules that found each case against the ground truth.
pub fn validate_actual(
    truth: &TextMap<TruthRecord>,
    actual: &TextMap<TextSet>,
    parser_errors: usize,
    expected_parser_errors: usize,
) -> (r: ValidationReport)
    requires
        truth.wf(),
        actual.wf(),
        forall|id: Seq<char>| #[trigger] actual@.dom().contains(id) ==> actual@[id].wf(),
        can_be_counted(truth@, actual@),
    ensures
        is_validation(r, truth@, actual@, parser_errors, expected_parser_errors),
{
    let ghost ids = ordered_texts(truth@.dom());
    proof {
        truth.lemma_order();
        truth.lemma_positions();
    }
    let count = truth.len();
    let mut progress = Progress {
        metrics: Metrics {
            events: count,
            expected_malicious: 0,
            expected_benign: 0,
            expected_detections: 0,
            detected_expected: 0,
            missed: 0,
            unexpected_matches: 0,
            parser_errors,
            true_positives: 0,
            false_negatives: 0,
            false_positives: 0,
            true_negatives: 0,
        },
        failures: Vec::new(),
    };
    let ghost first = parser_failures(parser_errors as nat, expected_parser_errors as nat);
    assert(failure_models(progress.failures@) =~= Seq::<FailureModel>::empty());
    if parser_errors != expected_parser_errors {
        let mut details = "expected ".to_owned();
        push_decimal(&mut details, expected_parser_errors as u64);
        details.append(" parser errors, observed ");
        push_decimal(&mut details, parser_errors as u64);
        push_failure(&mut progress.failures, failure("parser", "PARSER_ERROR", None, details));
    }
    assert(failure_models(progress.failures@) =~= first);
    let nothing = TextSet::new();
    let mut i: usize = 0;
    assert(first + total_failures(ids.take(0), truth@, actual@) =~= first);
    while i < count
        invariant
            truth.wf(),
            actual.wf(),
            forall|id: Seq<char>| #[trigger] actual@.dom().contains(id) ==> actual@[id].wf(),
            can_be_counted(truth@, actual@),
            nothing.wf(),
            nothing@ == Set::<Seq<char>>::empty(),
            ids == ordered_texts(truth@.dom()),
            ids == truth.key_seq(),
            count == ids.len(),
            i <= count,
            progress.metrics.events == count,
            progress.metrics.parser_errors == parser_errors,
            are_metrics(
                progress.metrics,
                total_counts(ids.take(i as int), truth@, actual@),
                count as nat,
                parser_errors,
            ),
            failure_models(progress.failures@) == first + total_failures(
                ids.take(i as int),
                truth@,
                actual@,
            ),
        decreases count - i,
    {
        let id = truth.key_at(i);
        let record = truth.value_at(i);
        let wanted = wanted_set(record);
        let found = match actual.get(id.as_str()) {
            Some(rules) => rules,
            None => &nothing,
        };
        let missed = difference(&wanted, found);
        let unexpected = difference(found, &wanted);
        let ghost done = ids.take(i as int);
        let ghost next = ids.take(i + 1);
        let ghost totals = total_counts(done, truth@, actual@);
        let ghost case = case_counts(record.expected.class, wanted@, found@);
        proof {
            assert(next.drop_last() =~= done);
            assert(next.last() == id@);
            assert(truth@[id@] == *record);
            assert(found@ == found_rules(actual@, id@));
            wanted.lemma_members();
            found.lemma_members();
            lemma_totals_grow(ids, truth@, actual@, i + 1);
            counts_are_bounded(done, truth@, actual@);
        }
        progress.report(id.as_str(), &missed, &unexpected);
        progress.metrics =
        count_case(
            progress.metrics,
            record.expected.class,
            wanted.len(),
            found.len(),
            missed.len(),
            unexpected.len(),
            Ghost(totals),
            Ghost(case),
            Ghost((wanted@, found@)),
        );
        proof {
            let more = case_failures(id@, wanted@, found@);
            assert(texts(missed@).map_values(|rule: Seq<char>| missed_failure(id@, rule)) =~=
                ordered_texts(wanted@.difference(found@)).map_values(
                |rule: Seq<char>| missed_failure(id@, rule),
            ));
            assert(texts(unexpected@).map_values(|rule: Seq<char>| unexpected_failure(id@, rule))
                =~= ordered_texts(found@.difference(wanted@)).map_values(
                |rule: Seq<char>| unexpected_failure(id@, rule),
            ));
            assert((first + total_failures(done, truth@, actual@)) + more =~= first + (
            total_failures(done, truth@, actual@) + more));
        }
        i = i + 1;
    }
    proof {
        assert(ids.take(i as int) =~= ids);
        counts_are_bounded(ids, truth@, actual@);
    }
    let m = progress.metrics;
    let recall = share_of(m.true_positives, m.false_negatives);
    let precision = share_of(m.true_positives, m.false_positives);
    let false_positive_rate = share_of(m.false_positives, m.true_negatives);
    ValidationReport {
        status: if progress.failures.len() == 0 {
            "PASS".to_owned()
        } else {
            "FAIL".to_owned()
        },
        metrics: m,
        recall,
        precision,
        false_positive_rate,
        failures: progress.failures,
    }
}

/// A validation passes exactly where each case was found by the rules that are expected to find
/// it and by no others, and there were as many unreadable lines as expected.
pub proof fn a_pass_means_every_expectation_held(
    r: ValidationReport,
    truth: Map<Seq<char>, TruthRecord>,
    actual: Map<Seq<char>, TextSet>,
    errors: usize,
    expected: usize,
)
    requires
        is_validation(r, truth, actual, errors, expected),
        truth.dom().finite(),
        forall|id: Seq<char>| (#[trigger] found_rules(actual, id)).finite(),
    ensures
        r.failures@.len() == 0 <==> errors == expected && forall|id: Seq<char>| #[trigger]
            truth.dom().contains(id) ==> found_rules(actual, id) == wanted_rules(truth[id]),
{
    let ids = ordered_texts(truth.dom());
    ordered_texts_lists_the_members(truth.dom());
    assert(failure_models(r.failures@).len() == r.failures@.len());
    lemma_no_failures(ids, truth, actual);
    assert forall|id: Seq<char>| #[trigger] truth.dom().contains(id) implies exists|i: int|
        0 <= i < ids.len() && ids[i] == id by {
        assert(ids.to_set().contains(id));
        let i = ids.index_of(id);
        assert(ids[i] == id);
    }
    assert forall|i: int| 0 <= i < ids.len() implies truth.dom().contains(#[trigger] ids[i]) by {
        assert(ids.to_set().contains(ids[i]));
    }
}

proof fn lemma_no_failures(
    ids: Seq<Seq<char>>,
    truth: Map<Seq<char>, TruthRecord>,
    actual: Map<Seq<char>, TextSet>,
)
    requires
        forall|id: Seq<char>| (#[trigger] found_rules(actual, id)).finite(),
    ensures
        total_failures(ids, truth, actual).len() == 0 <==> forall|i: int|
            0 <= i < ids.len() ==> found_rules(actual, #[trigger] ids[i]) == wanted_rules(
                truth[ids[i]],
            ),
    decreases ids.len(),
{
    if ids.len() > 0 {
        let front = ids.drop_last();
        let id = ids.last();
        let wanted = wanted_rules(truth[id]);
        let found = found_rules(actual, id);
        lemma_no_failures(front, truth, actual);
        lemma_wanted_finite(truth[id]);
        ordered_texts_lists_the_members(wanted.difference(found));
        ordered_texts_lists_the_members(found.difference(wanted));
        lemma_parts(wanted, found);
        lemma_parts(found, wanted);
        if case_failures(id, wanted, found).len() == 0 {
            assert(found =~= wanted);
        }
        if found == wanted {
            assert(wanted.difference(found) =~= Set::<Seq<char>>::empty());
            assert(found.difference(wanted) =~= Set::<Seq<char>>::empty());
        }
        assert(forall|i: int| 0 <= i < front.len() ==> front[i] == ids[i]);
        if total_failures(ids, truth, actual).len() == 0 {
            assert forall|i: int| 0 <= i < ids.len() implies found_rules(actual, #[trigger] ids[i])
                == wanted_rules(truth[ids[i]]) by {
                if i < front.len() {
                    assert(front[i] == ids[i]);
                }
            }
        }
        if forall|i: int|
            0 <= i < ids.len() ==> found_rules(actual, #[trigger] ids[i]) == wanted_rules(
                truth[ids[i]],
            ) {
            assert(found_rules(actual, ids[ids.len() - 1]) == wanted_rules(
                truth[ids[ids.len() - 1]],
            ));
            assert forall|i: int| 0 <= i < front.len() implies found_rules(
                actual,
                #[trigger] front[i],
            ) == wanted_rules(truth[front[i]]) by {
                assert(front[i] == ids[i]);
            }
        }
    }
}

/// Adds a record of the ground truth. A later record of an event takes the place of an earlier one.
pub fn add_truth(truth: &mut TextMap<TruthRecord>, record: TruthRecord)
    requires
        old(truth).wf(),
    ensures
        final(truth).wf(),
        final(truth)@ == old(truth)@.insert(record.event_id@, record),
{
    let id = record.event_id.clone();
    truth.insert(id, record);
}

/// The rules that found each case, and the lines that could not be read.
#[derive(Debug)]
pub struct RuleMatches {
    found: TextMap<TextSet>,
    parser_errors: usize,
}

impl RuleMatches {
    pub closed spec fn wf(self) -> bool {
        &&& self.found.wf()
        &&& forall|id: Seq<char>| #[trigger]
            self.found@.dom().contains(id) ==> self.found@[id].wf()
    }

    pub closed spec fn cases(self) -> Map<Seq<char>, TextSet> {
        self.found@
    }

    pub closed spec fn errors(self) -> usize {
        self.parser_errors
    }

    /// The rules that found a case.
    pub open spec fn rules(self, id: Seq<char>) -> Set<Seq<char>> {
        found_rules(self.cases(), id)
    }

    pub fn new() -> (r: Self)
        ensures
            r.wf(),
            r.errors() == 0,
            forall|id: Seq<char>| #[trigger] r.rules(id) == Set::<Seq<char>>::empty(),
    {
        RuleMatches { found: TextMap::new(), parser_errors: 0 }
    }

    fn add(&mut self, id: &str, rule: String)
        requires
            old(self).wf(),
        ensures
            final(self).wf(),
            final(self).errors() == old(self).errors(),
            forall|x: Seq<char>| #[trigger]
                final(self).rules(x) == if x == id@ {
                    old(self).rules(x).insert(rule@)
                } else {
                    old(self).rules(x)
                },
    {
        let mut rules = match self.found.get_mut(id) {
            Some(rules) => {
                rules.insert(rule);
                return;
            },
            None => TextSet::new(),
        };
        rules.insert(rule);
        self.found.insert(id.to_owned(), rules);
    }

    /// Counts a finding. One without a request identifier stands for no case.
    pub fn finding(&mut self, request_id: Option<&str>, rule: String)
        requires
            old(self).wf(),
        ensures
            final(self).wf(),
            final(self).errors() == old(self).errors(),
            forall|x: Seq<char>| #[trigger]
                final(self).rules(x) == if request_id is Some && x == request_id.unwrap()@ {
                    old(self).rules(x).insert(rule@)
                } else {
                    old(self).rules(x)
                },
    {
        if let Some(id) = request_id {
            self.add(id, rule);
        }
    }

    /// Counts an event and the rules that matched it. An event without a request identifier is
    /// the case with the empty one.
    pub fn event(&mut self, request_id: Option<&str>, matched: &Vec<String>)
        requires
            old(self).wf(),
        ensures
            final(self).wf(),
            final(self).errors() == old(self).errors(),
            forall|x: Seq<char>| #[trigger]
                final(self).rules(x) == if x == (match request_id {
                    Some(id) => id@,
                    None => ""@,
                }) {
                    old(self).rules(x).union(texts(matched@).to_set())
                } else {
                    old(self).rules(x)
                },
    {
        let id = match request_id {
            Some(id) => id,
            None => "",
        };
        let mut i: usize = 0;
        assert(texts(matched@).take(0).to_set() =~= Set::<Seq<char>>::empty());
        assert forall|x: Seq<char>| #[trigger] old(self).rules(x) == old(self).rules(x).union(
            Set::<Seq<char>>::empty(),
        ) by {
            assert(old(self).rules(x) =~= old(self).rules(x).union(Set::<Seq<char>>::empty()));
        }
        while i < matched.len()
            invariant
                i <= matched@.len(),
                self.wf(),
                self.errors() == old(self).errors(),
                forall|x: Seq<char>| #[trigger]
                    self.rules(x) == if x == id@ {
                        old(self).rules(x).union(texts(matched@).take(i as int).to_set())
                    } else {
                        old(self).rules(x)
                    },
            decreases matched.len() - i,
        {
            let ghost before = texts(matched@).take(i as int);
            self.add(id, matched[i].clone());
            proof {
                let next = texts(matched@).take(i + 1);
                assert(next =~= before.push(matched@[i as int]@));
                assert(next.to_set() =~= before.to_set().insert(matched@[i as int]@)) by {
                    assert forall|t: Seq<char>| next.to_set().contains(t) == before.to_set().insert(
                        matched@[i as int]@,
                    ).contains(t) by {
                        if before.contains(t) {
                            let k = choose|k: int| 0 <= k < before.len() && before[k] == t;
                            assert(next[k] == t);
                        }
                        if t == matched@[i as int]@ {
                            assert(next[i as int] == t);
                        }
                    }
                }
                assert(old(self).rules(id@).union(before.to_set()).insert(matched@[i as int]@)
                    =~= old(self).rules(id@).union(next.to_set()));
            }
            i = i + 1;
        }
        assert(texts(matched@).take(i as int) =~= texts(matched@));
    }

    /// Counts a line that could not be read.
    pub fn parser_error(&mut self)
        requires
            old(self).wf(),
            old(self).errors() < usize::MAX,
        ensures
            final(self).wf(),
            final(self).errors() == old(self).errors() + 1,
            final(self).cases() == old(self).cases(),
    {
        self.parser_errors = self.parser_errors + 1;
    }

    pub fn parser_errors(&self) -> (r: usize)
        ensures
            r == self.errors(),
    {
        self.parser_errors
    }

    /// Validates the counted matches; none where they are more than can be counted. Without a
    /// manifest no line is expected to be unreadable.
    pub fn validate(
        &self,
        truth: &TextMap<TruthRecord>,
        expected_parser_errors: Option<usize>,
    ) -> (r: Option<ValidationReport>)
        requires
            self.wf(),
            truth.wf(),
        ensures
            match r {
                Some(report) => can_be_counted(truth@, self.cases()) && is_validation(
                    report,
                    truth@,
                    self.cases(),
                    self.errors(),
                    match expected_parser_errors {
                        Some(n) => n,
                        None => 0,
                    },
                ),
                None => !can_be_counted(truth@, self.cases()),
            },
    {
        if !countable(truth, &self.found) {
            return None;
        }
        let expected: usize = match expected_parser_errors {
            Some(n) => n,
            None => 0,
        };
        Some(validate_actual(truth, &self.found, self.parser_errors, expected))
    }
}

/// How the shares of a report are printed.
#[derive(Clone, Debug)]
pub struct ShareTexts {
    pub recall: String,
    pub precision: String,
    pub false_positive_rate: String,
}

pub open spec fn share_text(share: Option<Ratio>, printed: String) -> Seq<char> {
    if share is Some {
        printed@
    } else {
        "n/a"@
    }
}

pub open spec fn measure_lines(report: ValidationReport, printed: ShareTexts) -> Seq<Seq<char>> {
    seq![
        "Events:                 "@ + decimal(report.metrics.events as nat),
        "Expected malicious:     "@ + decimal(report.metrics.expected_malicious as nat),
        "Expected benign:        "@ + decimal(report.metrics.expected_benign as nat),
        "Expected detections:    "@ + decimal(report.metrics.expected_detections as nat),
        "Detected expected:      "@ + decimal(report.metrics.detected_expected as nat),
        "Missed:                 "@ + decimal(report.metrics.missed as nat),
        "Unexpected matches:     "@ + decimal(report.metrics.unexpected_matches as nat),
        "Parser errors:          "@ + decimal(report.metrics.parser_errors as nat),
        "True positives:         "@ + decimal(report.metrics.true_positives as nat),
        "False negatives:        "@ + decimal(report.metrics.false_negatives as nat),
        "False positives:        "@ + decimal(report.metrics.false_positives as nat),
        "True negatives:         "@ + decimal(report.metrics.true_negatives as nat),
        "Recall:                 "@ + share_text(report.recall, printed.recall),
        "Precision:              "@ + share_text(report.precision, printed.precision),
        "False positive rate:    "@ + share_text(report.false_positive_rate, printed.false_positive_rate),
        ""@,
        "Deterministic test status:"@,
        report.status@,
    ]
}

pub open spec fn failure_line(failure: Failure) -> Seq<char> {
    "FAIL "@ + failure.case_id@ + " ["@ + failure.category@ + "] "@ + failure.details@
}

/// The lines in which a validation is reported: its measures, then its failures.
pub open spec fn report_lines_of(report: ValidationReport, printed: ShareTexts) -> Seq<Seq<char>> {
    measure_lines(report, printed) + report.failures@.map_values(|f: Failure| failure_line(f))
}

fn counted(label: &str, count: usize) -> (r: String)
    ensures
        r@ == label@ + decimal(count as nat),
{
    let mut line = label.to_owned();
    push_decimal(&mut line, count as u64);
    line
}

fn share_line(label: &str, share: Option<Ratio>, printed: &str) -> (r: String)
    ensures
        r@ == label@ + (if share is Some {
            printed@
        } else {
            "n/a"@
        }),
{
    let mut line = label.to_owned();
    if share.is_some() {
        line.append(printed);
    } else {
        line.append("n/a");
    }
    line
}

pub fn report_lines(report: &ValidationReport, printed: &ShareTexts) -> (r: Vec<String>)
    ensures
        texts(r@) == report_lines_of(*report, *printed),
{
    let mut lines: Vec<String> = Vec::new();
    lines.push(counted("Events:                 ", report.metrics.events));
    lines.push(counted("Expected malicious:     ", report.metrics.expected_malicious));
    lines.push(counted("Expected benign:        ", report.metrics.expected_benign));
    lines.push(counted("Expected detections:    ", report.metrics.expected_detections));
    lines.push(counted("Detected expected:      ", report.metrics.detected_expected));
    lines.push(counted("Missed:                 ", report.metrics.missed));
    lines.push(counted("Unexpected matches:     ", report.metrics.unexpected_matches));
    lines.push(counted("Parser errors:          ", report.metrics.parser_errors));
    lines.push(counted("True positives:         ", report.metrics.true_positives));
    lines.push(counted("False negatives:        ", report.metrics.false_negatives));
    lines.push(counted("False positives:        ", report.metrics.false_positives));
    lines.push(counted("True negatives:         ", report.metrics.true_negatives));
    lines.push(share_line("Recall:                 ", report.recall, printed.recall.as_str()));
    lines.push(share_line("Precision:              ", report.precision, printed.precision.as_str()));
    lines.push(share_line("False positive rate:    ", report.false_positive_rate, printed.false_positive_rate.as_str()));
    lines.push("".to_owned());
    lines.push("Deterministic test status:".to_owned());
    lines.push(report.status.clone());
    let ghost head = measure_lines(*report, *printed);
    assert(texts(lines@) =~= head);
    let ghost failures = report.failures@.map_values(|f: Failure| failure_line(f));
    let mut i: usize = 0;
    assert(head + failures.take(0) =~= head);
    while i < report.failures.len()
        invariant
            i <= report.failures@.len(),
            failures == report.failures@.map_values(|f: Failure| failure_line(f)),
            texts(lines@) == head + failures.take(i as int),
        decreases report.failures.len() - i,
    {
        let failure = &report.failures[i];
        let mut line = "FAIL ".to_owned();
        line.append(failure.case_id.as_str());
        line.append(" [");
        line.append(failure.category.as_str());
        line.append("] ");
        line.append(failure.details.as_str());
        let ghost before = lines@;
        lines.push(line);
        assert(texts(lines@) =~= texts(before).push(line@));
        assert(texts(lines@) =~= head + failures.take(i + 1));
        i = i + 1;
    }
    assert(failures.take(i as int) =~= failures);
    lines
}

} // verus!
