//! Distributions of measurements over explicitly chosen reference runs.

use crate::conditions::RunConditions;
use crate::daily::{
    all_metrics, given, is_zero, readable, DailyMetric, METRICS,
};
use crate::numbers::Ratio;
use crate::ordered::{increasing, increasing_list_is_unique, TextMap};
use crate::text::{chars_of, opt_text, same_text, texts};
use crate::volume_report::RequestConcentrationSummary;
use vstd::prelude::*;
use vstd::string::*;

verus! {

broadcast use vstd::string::group_string_axioms;

pub const NOTE: &'static str =
    "Explicit reference-run measurements, not normal ranges, classifications or forecasts. Select comparable periods (for example the same weekday) yourself and review recorded conditions, missing values and caps. Median gives each available run equal weight; even counts use the arithmetic mean of the two central values. Ratios to a zero median are unavailable. No logs are reprocessed.";

/// The mean of the two central values; of one central value twice.
#[derive(Clone, Copy, Debug, PartialEq, Eq, Structural)]
pub struct CentralValues {
    pub lower: Ratio,
    pub upper: Ratio,
}

#[derive(Debug)]
pub struct MetricDistribution {
    pub available_runs: usize,
    pub unavailable_runs: usize,
    /// How many runs were unavailable for each reason.
    pub unavailable_reasons: TextMap<usize>,
    pub minimum: Option<Ratio>,
    pub median: Option<CentralValues>,
    pub maximum: Option<Ratio>,
    pub current: Option<Ratio>,
    pub current_unavailable_reason: Option<String>,
}

impl MetricDistribution {
    pub open spec fn delta_known(&self) -> bool {
        self.current is Some && self.median is Some
    }

    /// The current value over the median; not for a median of zero.
    pub open spec fn ratio_known(&self) -> bool {
        self.delta_known() && !(is_zero(self.median.unwrap().lower) && is_zero(
            self.median.unwrap().upper,
        ))
    }

    pub fn has_delta(&self) -> (r: bool)
        ensures
            r == self.delta_known(),
    {
        self.current.is_some() && self.median.is_some()
    }

    pub fn has_ratio(&self) -> (r: bool)
        ensures
            r == self.ratio_known(),
    {
        match (self.current, self.median) {
            (Some(_), Some(m)) => {
                let low = m.lower.numerator == 0 || m.lower.denominator == 0;
                let high = m.upper.numerator == 0 || m.upper.denominator == 0;
                !(low && high)
            },
            _ => false,
        }
    }
}

/// Whether one measured value is at most another.
pub open spec fn at_most(a: Ratio, b: Ratio) -> bool {
    is_zero(a) || (!is_zero(b) && a.numerator * b.denominator <= b.numerator * a.denominator)
}

fn is_at_most(a: Ratio, b: Ratio) -> (r: bool)
    ensures
        r == at_most(a, b),
{
    if a.numerator == 0 || a.denominator == 0 {
        return true;
    }
    if b.numerator == 0 || b.denominator == 0 {
        return false;
    }
    proof {
        lemma_product_fits(a.numerator, b.denominator);
        lemma_product_fits(b.numerator, a.denominator);
    }
    a.numerator as u128 * b.denominator as u128 <= b.numerator as u128 * a.denominator as u128
}

proof fn lemma_product_fits(x: u64, y: u64)
    ensures
        0 <= x * y <= u128::MAX,
{
    assert(0 <= x * y <= 0xffff_ffff_ffff_ffff * 0xffff_ffff_ffff_ffff) by (nonlinear_arith)
        requires
            0 <= x <= 0xffff_ffff_ffff_ffff,
            0 <= y <= 0xffff_ffff_ffff_ffff,
    ;
}

proof fn lemma_at_most_total(a: Ratio, b: Ratio)
    ensures
        at_most(a, b) || at_most(b, a),
{
}

proof fn lemma_at_most_transitive(a: Ratio, b: Ratio, c: Ratio)
    requires
        at_most(a, b),
        at_most(b, c),
    ensures
        at_most(a, c),
{
    if !is_zero(a) {
        let (p, q) = (a.numerator as int, a.denominator as int);
        let (r, s) = (b.numerator as int, b.denominator as int);
        let (t, u) = (c.numerator as int, c.denominator as int);
        assert(p * u <= t * q) by (nonlinear_arith)
            requires
                p > 0,
                q > 0,
                r > 0,
                s > 0,
                t > 0,
                u > 0,
                p * s <= r * q,
                r * u <= t * s,
        {
            assert((p * s) * u <= (r * q) * u) by (nonlinear_arith)
                requires
                    p * s <= r * q,
                    u > 0,
            ;
            assert((r * u) * q <= (t * s) * q) by (nonlinear_arith)
                requires
                    r * u <= t * s,
                    q > 0,
            ;
            assert((p * u) * s <= (t * q) * s) by (nonlinear_arith)
                requires
                    (p * s) * u <= (r * q) * u,
                    (r * u) * q <= (t * s) * q,
            ;
            assert(p * u <= t * q) by (nonlinear_arith)
                requires
                    (p * u) * s <= (t * q) * s,
                    s > 0,
            ;
        }
    }
}

/// Whether no value is larger than a later one.
pub open spec fn nondecreasing(list: Seq<Ratio>) -> bool {
    forall|i: int, j: int|
        0 <= i <= j < list.len() ==> at_most(#[trigger] list[i], #[trigger] list[j])
}

/// Whether a list holds the given values from the smallest to the largest.
pub open spec fn arranges(list: Seq<Ratio>, values: Seq<Ratio>) -> bool {
    nondecreasing(list) && list.to_multiset() == values.to_multiset()
}

/// The first place of a list in order that is not before a value.
fn place_for(list: &Vec<Ratio>, value: Ratio) -> (r: usize)
    requires
        nondecreasing(list@),
    ensures
        r <= list@.len(),
        forall|i: int| 0 <= i < r ==> at_most(#[trigger] list@[i], value),
        forall|i: int| r <= i < list@.len() ==> at_most(value, #[trigger] list@[i]),
{
    let mut i: usize = 0;
    while i < list.len()
        invariant
            nondecreasing(list@),
            i <= list@.len(),
            forall|j: int| 0 <= j < i ==> at_most(#[trigger] list@[j], value),
        decreases list.len() - i,
    {
        if !is_at_most(list[i], value) {
            proof {
                assert forall|j: int| i <= j < list@.len() implies at_most(
                    value,
                    #[trigger] list@[j],
                ) by {
                    lemma_at_most_total(list@[i as int], value);
                    lemma_at_most_transitive(value, list@[i as int], list@[j]);
                }
            }
            return i;
        }
        i = i + 1;
    }
    i
}

fn arranged(values: &Vec<Ratio>) -> (r: Vec<Ratio>)
    ensures
        arranges(r@, values@),
        r@.len() == values@.len(),
{
    let mut r: Vec<Ratio> = Vec::new();
    let mut i: usize = 0;
    assert(values@.take(0) =~= Seq::<Ratio>::empty());
    assert(r@ =~= Seq::<Ratio>::empty());
    while i < values.len()
        invariant
            i <= values@.len(),
            r@.len() == i,
            nondecreasing(r@),
            r@.to_multiset() == values@.take(i as int).to_multiset(),
        decreases values.len() - i,
    {
        let value = values[i];
        let at = place_for(&r, value);
        let ghost before = r@;
        r.insert(at, value);
        proof {
            broadcast use vstd::seq_lib::group_to_multiset_ensures;

            assert(r@ == before.insert(at as int, value));
            assert(values@.take(i + 1) =~= values@.take(i as int).push(value));
            assert forall|x: int, y: int| 0 <= x <= y < r@.len() implies at_most(
                #[trigger] r@[x],
                #[trigger] r@[y],
            ) by {
                if x < at && y == at {
                    assert(at_most(before[x], value));
                } else if x == at && y > at {
                    assert(at_most(value, before[y - 1]));
                } else if x < at && y > at {
                    assert(at_most(before[x], before[y - 1]));
                } else if x > at {
                    assert(at_most(before[x - 1], before[y - 1]));
                } else if y < at {
                    assert(at_most(before[x], before[y]));
                }
            }
        }
        i = i + 1;
    }
    assert(values@.take(i as int) =~= values@);
    r
}

/// How often a text stands in a list.
pub open spec fn occurrences(list: Seq<Seq<char>>, text: Seq<char>) -> nat
    decreases list.len(),
{
    if list.len() == 0 {
        0
    } else {
        occurrences(list.drop_last(), text) + if list.last() == text {
            1nat
        } else {
            0nat
        }
    }
}

/// Whether a map counts the texts of a list.
pub open spec fn tallies(map: Map<Seq<char>, usize>, list: Seq<Seq<char>>) -> bool {
    &&& map.dom() == list.to_set()
    &&& forall|k: Seq<char>| #[trigger]
        map.dom().contains(k) ==> map[k] == occurrences(list, k)
}

proof fn lemma_occurrences_bounded(list: Seq<Seq<char>>, text: Seq<char>)
    ensures
        occurrences(list, text) <= list.len(),
        !list.contains(text) ==> occurrences(list, text) == 0,
    decreases list.len(),
{
    if list.len() > 0 {
        lemma_occurrences_bounded(list.drop_last(), text);
        if !list.contains(text) {
            assert(list.last() != text);
            assert(!list.drop_last().contains(text));
        }
    }
}

pub fn tally(reasons: &Vec<String>) -> (r: TextMap<usize>)
    ensures
        r.wf(),
        tallies(r@, texts(reasons@)),
{
    let mut r: TextMap<usize> = TextMap::new();
    let mut i: usize = 0;
    assert(texts(reasons@).take(0).to_set() =~= Set::<Seq<char>>::empty());
    while i < reasons.len()
        invariant
            r.wf(),
            i <= reasons@.len(),
            tallies(r@, texts(reasons@).take(i as int)),
        decreases reasons.len() - i,
    {
        let reason = &reasons[i];
        let ghost done = texts(reasons@).take(i as int);
        let ghost next = texts(reasons@).take(i + 1);
        let ghost before = r@;
        proof {
            assert(next =~= done.push(reason@));
            assert(next.drop_last() =~= done);
            lemma_occurrences_bounded(done, reason@);
        }
        let count: usize = match r.get(reason.as_str()) {
            Some(n) => *n,
            None => 0,
        };
        assert(count == occurrences(done, reason@)) by {
            if !before.dom().contains(reason@) {
                assert(!done.contains(reason@)) by {
                    if done.contains(reason@) {
                        assert(done.to_set().contains(reason@));
                    }
                }
            }
        }
        r.insert(reason.clone(), count + 1);
        proof {
            assert(next.to_set() =~= done.to_set().insert(reason@)) by {
                assert forall|k: Seq<char>| next.to_set().contains(k) == done.to_set().insert(
                    reason@,
                ).contains(k) by {
                    if done.to_set().contains(k) {
                        let n = done.index_of(k);
                        assert(next[n] == k);
                    }
                    assert(next[done.len() as int] == reason@);
                    if next.to_set().contains(k) {
                        let n = next.index_of(k);
                        if n < done.len() {
                            assert(done[n] == k);
                        }
                    }
                }
            }
            assert(r@.dom() =~= next.to_set());
        }
        i = i + 1;
    }
    assert(texts(reasons@).take(i as int) =~= texts(reasons@));
    r
}

/// What a distribution says of the values in order.
pub open spec fn has_order(r: MetricDistribution, list: Seq<Ratio>) -> bool {
    if list.len() == 0 {
        r.minimum is None && r.median is None && r.maximum is None
    } else {
        let n = list.len() as int;
        &&& r.minimum == Some(list[0])
        &&& r.maximum == Some(list[n - 1])
        &&& r.median == Some(CentralValues { lower: list[(n - 1) / 2], upper: list[n / 2] })
    }
}

/// Whether a distribution describes the values of the runs that have one, and counts the reasons
/// of those that do not.
pub open spec fn is_distribution(
    r: MetricDistribution,
    values: Seq<Ratio>,
    reasons: Seq<Seq<char>>,
    current: Result<Ratio, Seq<char>>,
) -> bool {
    &&& r.available_runs == values.len()
    &&& r.unavailable_runs == reasons.len()
    &&& r.unavailable_reasons.wf()
    &&& tallies(r.unavailable_reasons@, reasons)
    &&& exists|list: Seq<Ratio>| #[trigger] arranges(list, values) && has_order(r, list)
    &&& match current {
        Ok(value) => r.current == Some(value) && r.current_unavailable_reason is None,
        Err(reason) => r.current is None && opt_text(r.current_unavailable_reason) == Some(reason),
    }
}

pub open spec fn outcome(current: Result<Ratio, &str>) -> Result<Ratio, Seq<char>> {
    match current {
        Ok(value) => Ok(value),
        Err(reason) => Err(reason@),
    }
}

pub fn distribution(
    values: &Vec<Ratio>,
    reasons: &Vec<String>,
    current: Result<Ratio, &str>,
) -> (r: MetricDistribution)
    ensures
        is_distribution(r, values@, texts(reasons@), outcome(current)),
{
    let list = arranged(values);
    proof {
        assert(list@.len() == values@.len());
    }
    let n = list.len();
    let (minimum, median, maximum) = if n == 0 {
        (None, None, None)
    } else {
        (
            Some(list[0]),
            Some(CentralValues { lower: list[(n - 1) / 2], upper: list[n / 2] }),
            Some(list[n - 1]),
        )
    };
    let (value, reason) = match current {
        Ok(value) => (Some(value), None),
        Err(reason) => (None, Some(reason.to_owned())),
    };
    let r = MetricDistribution {
        available_runs: values.len(),
        unavailable_runs: reasons.len(),
        unavailable_reasons: tally(reasons),
        minimum,
        median,
        maximum,
        current: value,
        current_unavailable_reason: reason,
    };
    proof {
        assert(texts(reasons@).len() == reasons@.len());
        assert(arranges(list@, values@) && has_order(r, list@));
    }
    r
}

/// The values of a metric in the runs that have one.
pub open spec fn values_of(
    metric: DailyMetric,
    runs: Seq<Option<RequestConcentrationSummary>>,
) -> Seq<Ratio>
    decreases runs.len(),
{
    if runs.len() == 0 {
        seq![]
    } else {
        let before = values_of(metric, runs.drop_last());
        match metric.measured(runs.last()) {
            Ok(value) => before.push(value),
            Err(_) => before,
        }
    }
}

/// Why the other runs have none.
pub open spec fn reasons_of(
    metric: DailyMetric,
    runs: Seq<Option<RequestConcentrationSummary>>,
) -> Seq<Seq<char>>
    decreases runs.len(),
{
    if runs.len() == 0 {
        seq![]
    } else {
        let before = reasons_of(metric, runs.drop_last());
        match metric.measured(runs.last()) {
            Ok(_) => before,
            Err(reason) => before.push(reason),
        }
    }
}

/// Every run has a value or a reason.
pub proof fn every_run_is_disclosed(
    metric: DailyMetric,
    runs: Seq<Option<RequestConcentrationSummary>>,
)
    ensures
        values_of(metric, runs).len() + reasons_of(metric, runs).len() == runs.len(),
    decreases runs.len(),
{
    if runs.len() > 0 {
        every_run_is_disclosed(metric, runs.drop_last());
    }
}

fn metric_distribution(
    metric: DailyMetric,
    runs: &Vec<Option<RequestConcentrationSummary>>,
    current: Option<&RequestConcentrationSummary>,
) -> (r: MetricDistribution)
    requires
        forall|i: int|
            0 <= i < runs@.len() ==> ((#[trigger] runs@[i]) matches Some(s) ==> readable(s)),
        current matches Some(s) ==> readable(*s),
    ensures
        is_distribution(
            r,
            values_of(metric, runs@),
            reasons_of(metric, runs@),
            metric.measured(given(current)),
        ),
{
    let mut values: Vec<Ratio> = Vec::new();
    let mut reasons: Vec<String> = Vec::new();
    assert(texts(reasons@) =~= Seq::<Seq<char>>::empty());
    let mut i: usize = 0;
    while i < runs.len()
        invariant
            forall|i: int|
                0 <= i < runs@.len() ==> ((#[trigger] runs@[i]) matches Some(s) ==> readable(s)),
            i <= runs@.len(),
            values@ == values_of(metric, runs@.take(i as int)),
            texts(reasons@) == reasons_of(metric, runs@.take(i as int)),
        decreases runs.len() - i,
    {
        proof {
            assert(runs@.take(i + 1).drop_last() =~= runs@.take(i as int));
            assert(runs@.take(i + 1).last() == runs@[i as int]);
        }
        match metric.measurement(runs[i].as_ref()) {
            Ok(value) => values.push(value),
            Err(reason) => {
                let ghost before = reasons@;
                reasons.push(reason.to_owned());
                assert(texts(reasons@) =~= texts(before).push(reason@));
            },
        }
        i = i + 1;
    }
    assert(runs@.take(i as int) =~= runs@);
    distribution(&values, &reasons, metric.measurement(current))
}

/// The distribution of each metric over the reference runs, in the places of the metrics.
pub fn compare_reference_runs(
    runs: &Vec<Option<RequestConcentrationSummary>>,
    current: Option<&RequestConcentrationSummary>,
) -> (r: Vec<MetricDistribution>)
    requires
        forall|i: int|
            0 <= i < runs@.len() ==> ((#[trigger] runs@[i]) matches Some(s) ==> readable(s)),
        current matches Some(s) ==> readable(*s),
    ensures
        r@.len() == METRICS,
        forall|m: int|
            0 <= m < METRICS ==> is_distribution(
                #[trigger] r@[m],
                values_of(all_metrics()[m], runs@),
                reasons_of(all_metrics()[m], runs@),
                all_metrics()[m].measured(given(current)),
            ),
{
    let metrics = DailyMetric::all();
    let mut r: Vec<MetricDistribution> = Vec::new();
    let mut i: usize = 0;
    while i < metrics.len()
        invariant
            metrics@ == all_metrics(),
            i <= METRICS,
            r@.len() == i,
            forall|i: int|
                0 <= i < runs@.len() ==> ((#[trigger] runs@[i]) matches Some(s) ==> readable(s)),
            current matches Some(s) ==> readable(*s),
            forall|m: int|
                0 <= m < i ==> is_distribution(
                    #[trigger] r@[m],
                    values_of(all_metrics()[m], runs@),
                    reasons_of(all_metrics()[m], runs@),
                    all_metrics()[m].measured(given(current)),
                ),
        decreases metrics.len() - i,
    {
        r.push(metric_distribution(metrics[i], runs, current));
        i = i + 1;
    }
    r
}

/// What is known of a reference run.
#[derive(Debug)]
pub struct ReferenceProvenance {
    /// The digest of each artifact, where there is one, in the order of the names.
    pub artifacts_sha256: Vec<(String, Option<String>)>,
    pub conditions: RunConditions,
}

#[derive(Debug)]
pub struct ReferenceDistribution {
    pub note: String,
    pub requested_reference_runs: usize,
    pub duplicate_directory_references_excluded: usize,
    pub reference_runs: Vec<ReferenceProvenance>,
    pub current_run: ReferenceProvenance,
    /// In the places of the metrics.
    pub metrics: Vec<MetricDistribution>,
}

/// The comparison of a run with the reference runs of a set, in the order of the set.
pub fn reference_distribution(
    set: &ReferenceSet,
    reference_runs: Vec<ReferenceProvenance>,
    current_run: ReferenceProvenance,
    summaries: &Vec<Option<RequestConcentrationSummary>>,
    current: Option<&RequestConcentrationSummary>,
) -> (r: ReferenceDistribution)
    requires
        forall|i: int|
            0 <= i < summaries@.len() ==> ((#[trigger] summaries@[i]) matches Some(s) ==> readable(
                s,
            )),
        current matches Some(s) ==> readable(*s),
    ensures
        r.note@ == NOTE@,
        r.requested_reference_runs == set.requested_reference_runs,
        r.duplicate_directory_references_excluded == set.duplicate_directory_references_excluded,
        r.reference_runs == reference_runs,
        r.current_run == current_run,
        r.metrics@.len() == METRICS,
        forall|m: int|
            0 <= m < METRICS ==> is_distribution(
                #[trigger] r.metrics@[m],
                values_of(all_metrics()[m], summaries@),
                reasons_of(all_metrics()[m], summaries@),
                all_metrics()[m].measured(given(current)),
            ),
{
    ReferenceDistribution {
        note: NOTE.to_owned(),
        requested_reference_runs: set.requested_reference_runs,
        duplicate_directory_references_excluded: set.duplicate_directory_references_excluded,
        reference_runs,
        current_run,
        metrics: compare_reference_runs(summaries, current),
    }
}

/// The directory of a reference run.
#[derive(Clone, Debug)]
pub struct ReferencePath {
    /// The canonical path.
    pub path: String,
    pub is_directory: bool,
}

/// The reference runs of a comparison.
#[derive(Clone, Debug)]
pub struct ReferenceSet {
    /// Each directory once, in the order of the path components.
    pub references: Vec<String>,
    pub requested_reference_runs: usize,
    pub duplicate_directory_references_excluded: usize,
}

/// Why reference runs were refused.
#[derive(Clone, Copy, Debug, PartialEq, Eq, Structural)]
pub enum ReferenceError {
    CurrentNotADirectory,
    ReferenceNotADirectory,
    CurrentIncluded,
}

impl ReferenceError {
    pub fn message(&self) -> (r: &'static str)
        ensures
            r@ == match self {
                ReferenceError::CurrentNotADirectory => "current must be an existing run directory"@,
                ReferenceError::ReferenceNotADirectory =>
                    "reference must be an existing run directory"@,
                ReferenceError::CurrentIncluded =>
                    "the current run cannot be included in its reference set"@,
            },
    {
        match self {
            ReferenceError::CurrentNotADirectory => "current must be an existing run directory",
            ReferenceError::ReferenceNotADirectory => "reference must be an existing run directory",
            ReferenceError::CurrentIncluded =>
                "the current run cannot be included in its reference set",
        }
    }
}

/// A path with its separators before every other character, so that paths come in the order of
/// their components.
pub open spec fn component_key(path: Seq<char>) -> Seq<char> {
    path.map_values(
        |c: char|
            if c == '/' {
                '\0'
            } else {
                c
            },
    )
}

fn key_of(path: &str) -> (r: String)
    ensures
        r@ == component_key(path@),
{
    let chars = chars_of(path);
    let mut r = String::new();
    let mut i: usize = 0;
    while i < chars.len()
        invariant
            chars@ == path@,
            i <= chars@.len(),
            r@ == component_key(path@).take(i as int),
        decreases chars.len() - i,
    {
        let c = chars[i];
        r.push(
            if c == '/' {
                '\0'
            } else {
                c
            },
        );
        assert(component_key(path@).take(i + 1) =~= component_key(path@).take(i as int).push(
            component_key(path@)[i as int],
        ));
        i = i + 1;
    }
    assert(component_key(path@).take(i as int) =~= component_key(path@));
    r
}

/// A path as the operating system has them.
pub open spec fn is_path(path: Seq<char>) -> bool {
    !path.contains('\0')
}

proof fn lemma_key_is_unique(a: Seq<char>, b: Seq<char>)
    requires
        is_path(a),
        is_path(b),
        component_key(a) == component_key(b),
    ensures
        a == b,
{
    assert(component_key(a).len() == a.len() && component_key(b).len() == b.len());
    assert forall|i: int| 0 <= i < a.len() implies a[i] == b[i] by {
        let shown = |c: char|
            if c == '/' {
                '\0'
            } else {
                c
            };
        assert(a.contains(a[i]));
        assert(b.contains(b[i]));
        assert(component_key(a)[i] == shown(a[i]));
        assert(component_key(b)[i] == shown(b[i]));
    }
    assert(a =~= b);
}

pub open spec fn path_texts(list: Seq<ReferencePath>) -> Seq<Seq<char>> {
    list.map_values(|p: ReferencePath| p.path@)
}

pub open spec fn path_keys(list: Seq<Seq<char>>) -> Seq<Seq<char>> {
    list.map_values(|p: Seq<char>| component_key(p))
}

/// Whether a reference may be used beside the current run.
pub open spec fn acceptable(reference: ReferencePath, current: Seq<char>) -> bool {
    reference.is_directory && reference.path@ != current
}

/// Whether a list is the given set of paths in the order of the path components.
pub open spec fn lists_paths(list: Seq<Seq<char>>, paths: Set<Seq<char>>) -> bool {
    increasing(path_keys(list)) && list.to_set() == paths
}

/// Chooses the reference runs: the baseline and the additional ones. A directory that is named
/// twice is used once and disclosed; no date is read from a name.
pub fn reference_set(current: &ReferencePath, requested: &Vec<ReferencePath>) -> (r: Result<
    ReferenceSet,
    ReferenceError,
>)
    requires
        forall|i: int| 0 <= i < requested@.len() ==> is_path((#[trigger] requested@[i]).path@),
    ensures
        match r {
            Ok(set) => {
                &&& current.is_directory
                &&& forall|i: int|
                    0 <= i < requested@.len() ==> acceptable(
                        #[trigger] requested@[i],
                        current.path@,
                    )
                &&& lists_paths(texts(set.references@), path_texts(requested@).to_set())
                &&& set.requested_reference_runs == requested@.len()
                &&& set.duplicate_directory_references_excluded + set.references@.len()
                    == requested@.len()
            },
            Err(ReferenceError::CurrentNotADirectory) => !current.is_directory,
            Err(e) => current.is_directory && exists|i: int|
                0 <= i < requested@.len() && !acceptable(#[trigger] requested@[i], current.path@)
                    && (forall|j: int|
                    0 <= j < i ==> acceptable(#[trigger] requested@[j], current.path@)) && e == (
                if requested@[i].is_directory {
                    ReferenceError::CurrentIncluded
                } else {
                    ReferenceError::ReferenceNotADirectory
                }),
        },
{
    if !current.is_directory {
        return Err(ReferenceError::CurrentNotADirectory);
    }
    let ghost wanted = path_texts(requested@);
    let mut map: TextMap<String> = TextMap::new();
    let mut i: usize = 0;
    assert(wanted.take(0).to_set() =~= Set::<Seq<char>>::empty());
    while i < requested.len()
        invariant
            wanted == path_texts(requested@),
            current.is_directory,
            forall|i: int| 0 <= i < requested@.len() ==> is_path((#[trigger] requested@[i]).path@),
            i <= requested@.len(),
            forall|j: int| 0 <= j < i ==> acceptable(#[trigger] requested@[j], current.path@),
            map.wf(),
            map.key_seq().len() <= i,
            forall|k: Seq<char>| #[trigger]
                map@.dom().contains(k) ==> component_key(map@[k]@) == k && wanted.take(
                    i as int,
                ).contains(map@[k]@),
            forall|j: int| 0 <= j < i ==> map@.dom().contains(component_key(#[trigger] wanted[j])),
        decreases requested.len() - i,
    {
        let reference = &requested[i];
        if !reference.is_directory {
            assert(!acceptable(requested@[i as int], current.path@));
            return Err(ReferenceError::ReferenceNotADirectory);
        }
        if same_text(reference.path.as_str(), current.path.as_str()) {
            assert(!acceptable(requested@[i as int], current.path@));
            return Err(ReferenceError::CurrentIncluded);
        }
        let ghost before = map@;
        let ghost old_map = map;
        let key = key_of(reference.path.as_str());
        let ghost k0 = key@;
        map.insert(key, reference.path.clone());
        proof {
            old_map.lemma_positions();
            map.lemma_positions();
            assert(map@.dom() =~= before.dom().insert(k0));
            assert(wanted.take(i + 1) =~= wanted.take(i as int).push(reference.path@));
            assert(wanted.take(i + 1)[i as int] == reference.path@);
            assert forall|k: Seq<char>| #[trigger] map@.dom().contains(k) implies component_key(
                map@[k]@,
            ) == k && wanted.take(i + 1).contains(map@[k]@) by {
                if k != k0 {
                    assert(before.dom().contains(k));
                    let n = wanted.take(i as int).index_of(before[k]@);
                    assert(wanted.take(i + 1)[n] == before[k]@);
                }
            }
        }
        i = i + 1;
    }
    let mut references: Vec<String> = Vec::new();
    let count = map.len();
    proof {
        map.lemma_positions();
        assert(wanted.take(i as int) =~= wanted);
    }
    let mut n: usize = 0;
    while n < count
        invariant
            map.wf(),
            count == map.key_seq().len(),
            forall|k: Seq<char>| #[trigger]
                map@.dom().contains(k) ==> component_key(map@[k]@) == k && wanted.contains(
                    map@[k]@,
                ),
            n <= count,
            references@.len() == n,
            forall|j: int|
                0 <= j < n ==> (#[trigger] references@[j])@ == map@[map.key_seq()[j]]@
                    && component_key(references@[j]@) == map.key_seq()[j],
        decreases count - n,
    {
        proof {
            map.lemma_positions();
        }
        references.push(map.value_at(n).clone());
        n = n + 1;
    }
    proof {
        map.lemma_positions();
        let list = texts(references@);
        assert(path_keys(list) =~= map.key_seq());
        assert(list.to_set() =~= wanted.to_set()) by {
            assert forall|p: Seq<char>| list.to_set().contains(p) == wanted.to_set().contains(
                p,
            ) by {
                if list.to_set().contains(p) {
                    let j = list.index_of(p);
                    assert(references@[j]@ == p);
                    assert(map@.dom().contains(map.key_seq()[j]));
                }
                if wanted.to_set().contains(p) {
                    let j = wanted.index_of(p);
                    assert(wanted[j] == p);
                    assert(is_path(requested@[j].path@));
                    let k = component_key(p);
                    assert(map@.dom().contains(k));
                    assert(map.key_seq().to_set().contains(k));
                    let m = map.key_seq().index_of(k);
                    assert(map.key_seq()[m] == k);
                    let q = references@[m]@;
                    assert(wanted.contains(q));
                    let w = wanted.index_of(q);
                    assert(requested@[w].path@ == q);
                    lemma_key_is_unique(p, q);
                    assert(list[m] == p);
                }
            }
        }
    }
    Ok(
        ReferenceSet {
            duplicate_directory_references_excluded: requested.len() - references.len(),
            references,
            requested_reference_runs: requested.len(),
        },
    )
}

/// The reference runs do not depend on the order in which they are named, nor on how often.
pub proof fn references_ignore_order_and_repetition(
    a: Seq<Seq<char>>,
    b: Seq<Seq<char>>,
    paths: Set<Seq<char>>,
)
    requires
        lists_paths(a, paths),
        lists_paths(b, paths),
        forall|p: Seq<char>| #[trigger] paths.contains(p) ==> is_path(p),
    ensures
        a == b,
{
    let (ka, kb) = (path_keys(a), path_keys(b));
    assert(ka.to_set() =~= kb.to_set()) by {
        assert forall|k: Seq<char>| ka.to_set().contains(k) == kb.to_set().contains(k) by {
            if ka.to_set().contains(k) {
                let i = ka.index_of(k);
                assert(a.to_set().contains(a[i]));
                let j = b.index_of(a[i]);
                assert(b[j] == a[i]);
                assert(kb[j] == k);
            }
            if kb.to_set().contains(k) {
                let i = kb.index_of(k);
                assert(b.to_set().contains(b[i]));
                let j = a.index_of(b[i]);
                assert(a[j] == b[i]);
                assert(ka[j] == k);
            }
        }
    }
    increasing_list_is_unique(ka, kb);
    assert forall|i: int| 0 <= i < a.len() implies a[i] == b[i] by {
        assert(ka[i] == kb[i]);
        assert(a.to_set().contains(a[i]));
        assert(b.to_set().contains(b[i]));
        lemma_key_is_unique(a[i], b[i]);
    }
    assert(ka.len() == a.len() && kb.len() == b.len());
    assert(a =~= b);
}

} // verus!
