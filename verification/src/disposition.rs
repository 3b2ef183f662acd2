//! Private, append-only analyst dispositions for recurring finding patterns.
//!
//! Dispositions are analyst opinions, not determinations. The store contains raw request paths
//! and optional query strings and must remain private.

use crate::digest::{digest, digest_text};
use crate::event::{opt_str, Timestamp};
use crate::text::{
    ascii_lowercase, ascii_uppercase, compare_text, lower, opt_text, same_text, text_before,
    text_order_is_total, text_order_is_transitive, trim, trim_text, upper, TextOrder,
};
use vstd::prelude::*;
use vstd::string::*;

verus! {

broadcast use vstd::string::group_string_axioms;

pub const DISPOSITION_SAFETY_NOTE: &'static str =
    "PRIVATE: contains analyst-authored opinions and raw request patterns. A disposition is not a Shenron determination of attack, exploitation, compromise, or benignness. Do not share without review.";

#[derive(Clone, Copy, Debug, PartialEq, Eq, Structural)]
pub enum AnalystDisposition {
    Reviewed,
    Expected,
    NeedsReview,
}

impl AnalystDisposition {
    pub fn label(self) -> (r: &'static str)
        ensures
            r@ == match self {
                AnalystDisposition::Reviewed => "reviewed"@,
                AnalystDisposition::Expected => "expected"@,
                AnalystDisposition::NeedsReview => "needs-review"@,
            },
    {
        match self {
            AnalystDisposition::Reviewed => "reviewed",
            AnalystDisposition::Expected => "expected",
            AnalystDisposition::NeedsReview => "needs-review",
        }
    }
}

#[derive(Clone, Debug)]
pub struct DispositionKey {
    pub source: String,
    pub template_id: String,
    pub method: String,
    pub uri_path: String,
    pub uri_query: Option<String>,
    /// The exact corpus scope that the analyst defined. Nothing is inferred from host names.
    pub corpus_scope: Option<String>,
}

/// A key as the list of its parts, by which keys are ordered.
impl View for DispositionKey {
    type V = Seq<Option<Seq<char>>>;

    open spec fn view(&self) -> Seq<Option<Seq<char>>> {
        seq![
            Some(self.source@),
            Some(self.template_id@),
            Some(self.method@),
            Some(self.uri_path@),
            opt_text(self.uri_query),
            opt_text(self.corpus_scope),
        ]
    }
}

/// A key in another scope.
pub open spec fn in_scope(key: Seq<Option<Seq<char>>>, scope: Option<Seq<char>>) -> Seq<
    Option<Seq<char>>,
> {
    key.update(5, scope)
}

fn copied(value: &Option<String>) -> (r: Option<String>)
    ensures
        r == *value,
{
    match value {
        Some(v) => Some(v.clone()),
        None => None,
    }
}

impl DispositionKey {
    pub fn new(
        source: &str,
        template_id: &str,
        method: &str,
        uri_path: &str,
        uri_query: Option<&str>,
    ) -> (r: Self)
        ensures
            r@ == seq![
                Some(lower(trim_text(source@))),
                Some(template_id@),
                Some(upper(trim_text(method@))),
                Some(uri_path@),
                opt_str(uri_query),
                None,
            ],
    {
        let query = match uri_query {
            Some(text) => Some(text.to_owned()),
            None => None,
        };
        DispositionKey {
            source: ascii_lowercase(trim(source).as_str()),
            template_id: template_id.to_owned(),
            method: ascii_uppercase(trim(method).as_str()),
            uri_path: uri_path.to_owned(),
            uri_query: query,
            corpus_scope: None,
        }
    }

    fn scoped(&self, scope: &Option<String>) -> (r: Self)
        ensures
            r@ == in_scope(self@, opt_text(*scope)),
    {
        let r = DispositionKey {
            source: self.source.clone(),
            template_id: self.template_id.clone(),
            method: self.method.clone(),
            uri_path: self.uri_path.clone(),
            uri_query: copied(&self.uri_query),
            corpus_scope: copied(scope),
        };
        assert(r@ =~= in_scope(self@, opt_text(*scope)));
        r
    }

    fn parts(&self) -> (r: Vec<Option<&str>>)
        ensures
            r@.len() == self@.len(),
            forall|i: int| 0 <= i < r@.len() ==> opt_str(#[trigger] r@[i]) == self@[i],
    {
        let query = match &self.uri_query {
            Some(text) => Some(text.as_str()),
            None => None,
        };
        let scope = match &self.corpus_scope {
            Some(text) => Some(text.as_str()),
            None => None,
        };
        vec![
            Some(self.source.as_str()),
            Some(self.template_id.as_str()),
            Some(self.method.as_str()),
            Some(self.uri_path.as_str()),
            query,
            scope,
        ]
    }
}

/// The order on the parts of a key: a missing part first.
pub open spec fn part_before(a: Option<Seq<char>>, b: Option<Seq<char>>) -> bool {
    match (a, b) {
        (None, Some(_)) => true,
        (Some(x), Some(y)) => text_before(x, y),
        _ => false,
    }
}

/// The order on keys: the first parts that differ decide.
pub open spec fn key_before(a: Seq<Option<Seq<char>>>, b: Seq<Option<Seq<char>>>) -> bool
    decreases a.len(),
{
    if a.len() == 0 {
        b.len() > 0
    } else if b.len() == 0 {
        false
    } else if a[0] == b[0] {
        key_before(a.skip(1), b.skip(1))
    } else {
        part_before(a[0], b[0])
    }
}

pub proof fn part_order_is_total(a: Option<Seq<char>>, b: Option<Seq<char>>)
    ensures
        !part_before(a, a),
        a == b || part_before(a, b) || part_before(b, a),
        !(part_before(a, b) && part_before(b, a)),
{
    if a is Some && b is Some {
        text_order_is_total(a.unwrap(), b.unwrap());
    }
    if a is Some {
        text_order_is_total(a.unwrap(), a.unwrap());
    }
}

/// Of two different keys one comes before the other.
pub proof fn key_order_is_total(a: Seq<Option<Seq<char>>>, b: Seq<Option<Seq<char>>>)
    ensures
        !key_before(a, a),
        a == b || key_before(a, b) || key_before(b, a),
        !(key_before(a, b) && key_before(b, a)),
    decreases a.len(),
{
    if a.len() > 0 {
        key_order_is_total(a.skip(1), a.skip(1));
    }
    if a.len() > 0 && b.len() > 0 {
        part_order_is_total(a[0], b[0]);
        key_order_is_total(a.skip(1), b.skip(1));
        if a[0] == b[0] && a.skip(1) == b.skip(1) {
            assert(a =~= seq![a[0]] + a.skip(1));
            assert(b =~= seq![b[0]] + b.skip(1));
        }
    } else if a.len() == 0 && b.len() == 0 {
        assert(a =~= b);
    }
}

pub proof fn part_order_is_transitive(
    a: Option<Seq<char>>,
    b: Option<Seq<char>>,
    c: Option<Seq<char>>,
)
    requires
        part_before(a, b),
        part_before(b, c),
    ensures
        part_before(a, c),
        a != c,
{
    if a is Some {
        text_order_is_transitive(a.unwrap(), b.unwrap(), c.unwrap());
    }
    part_order_is_total(a, c);
    part_order_is_total(a, a);
}

pub proof fn key_order_is_transitive(
    a: Seq<Option<Seq<char>>>,
    b: Seq<Option<Seq<char>>>,
    c: Seq<Option<Seq<char>>>,
)
    requires
        key_before(a, b),
        key_before(b, c),
    ensures
        key_before(a, c),
    decreases a.len(),
{
    if a.len() > 0 {
        if a[0] == b[0] && b[0] == c[0] {
            key_order_is_transitive(a.skip(1), b.skip(1), c.skip(1));
        } else if a[0] != b[0] && b[0] != c[0] {
            part_order_is_transitive(a[0], b[0], c[0]);
        }
    }
}

pub fn compare_parts(a: Option<&str>, b: Option<&str>) -> (r: TextOrder)
    ensures
        r is Before == part_before(opt_str(a), opt_str(b)),
        r is Same == (opt_str(a) == opt_str(b)),
        r is After == part_before(opt_str(b), opt_str(a)),
{
    match (a, b) {
        (None, None) => TextOrder::Same,
        (None, Some(_)) => TextOrder::Before,
        (Some(_), None) => TextOrder::After,
        (Some(x), Some(y)) => compare_text(x, y),
    }
}

fn compare_keys(a: &DispositionKey, b: &DispositionKey) -> (r: TextOrder)
    ensures
        r is Before == key_before(a@, b@),
        r is Same == (a@ == b@),
        r is After == key_before(b@, a@),
{
    let x = a.parts();
    let y = b.parts();
    let mut i: usize = 0;
    assert(a@.skip(0) =~= a@);
    assert(b@.skip(0) =~= b@);
    while i < x.len()
        invariant
            x@.len() == a@.len(),
            y@.len() == b@.len(),
            a@.len() == b@.len(),
            forall|i: int| 0 <= i < x@.len() ==> opt_str(#[trigger] x@[i]) == a@[i],
            forall|i: int| 0 <= i < y@.len() ==> opt_str(#[trigger] y@[i]) == b@[i],
            i <= a@.len(),
            forall|k: int| 0 <= k < i ==> a@[k] == b@[k],
            key_before(a@, b@) == key_before(a@.skip(i as int), b@.skip(i as int)),
            key_before(b@, a@) == key_before(b@.skip(i as int), a@.skip(i as int)),
        decreases x.len() - i,
    {
        proof {
            assert(a@.skip(i as int)[0] == a@[i as int]);
            assert(b@.skip(i as int)[0] == b@[i as int]);
            assert(a@.skip(i as int).skip(1) =~= a@.skip(i + 1));
            assert(b@.skip(i as int).skip(1) =~= b@.skip(i + 1));
            part_order_is_total(a@[i as int], b@[i as int]);
        }
        match compare_parts(x[i], y[i]) {
            TextOrder::Before => {
                return TextOrder::Before;
            },
            TextOrder::After => {
                return TextOrder::After;
            },
            TextOrder::Same => {},
        }
        i = i + 1;
    }
    assert(a@ =~= b@);
    TextOrder::Same
}

/// Private analyst metadata, not automatically verified evidence or ground truth.
#[derive(Clone, Debug)]
pub struct DispositionReview {
    pub reviewer: Option<String>,
    pub evidence_run: Option<String>,
    pub nuclei_revision: Option<String>,
    pub review_after: Option<Timestamp>,
}

pub struct ReviewModel {
    pub reviewer: Option<Seq<char>>,
    pub evidence_run: Option<Seq<char>>,
    pub nuclei_revision: Option<Seq<char>>,
    pub review_after: Option<Timestamp>,
}

impl View for DispositionReview {
    type V = ReviewModel;

    open spec fn view(&self) -> ReviewModel {
        ReviewModel {
            reviewer: opt_text(self.reviewer),
            evidence_run: opt_text(self.evidence_run),
            nuclei_revision: opt_text(self.nuclei_revision),
            review_after: self.review_after,
        }
    }
}

pub open spec fn opt_review(review: Option<DispositionReview>) -> Option<ReviewModel> {
    match review {
        Some(r) => Some(r@),
        None => None,
    }
}

#[derive(Clone, Debug)]
pub struct DispositionEntry {
    pub safety_note: String,
    pub key: DispositionKey,
    pub disposition: AnalystDisposition,
    pub recorded_at: String,
    pub comment: Option<String>,
    pub review: Option<DispositionReview>,
}

/// When an entry is to be looked at again.
pub open spec fn deadline(entry: DispositionEntry) -> Option<Timestamp> {
    match entry.review {
        Some(review) => review.review_after,
        None => None,
    }
}

fn deadline_of(entry: &DispositionEntry) -> (r: Option<Timestamp>)
    ensures
        r == deadline(*entry),
{
    match &entry.review {
        Some(review) => review.review_after,
        None => None,
    }
}

#[derive(Clone, Copy, Debug, PartialEq, Eq, Structural)]
pub struct DispositionReviewSummary {
    pub selected_entries: usize,
    pub entries_excluded_by_scope: usize,
    pub entries_with_review_deadline: usize,
    /// Absent where no time of evaluation was given. The clock is never read.
    pub entries_due_for_review: Option<usize>,
    pub as_of: Option<Timestamp>,
}

#[derive(Clone, Debug)]
pub struct DispositionContext {
    pub corpus_scope: Option<String>,
    pub as_of: Option<Timestamp>,
    pub store_sha256: Option<String>,
}

#[derive(Clone, Copy, Debug, PartialEq, Eq, Structural)]
pub struct RecordDispositionResult {
    pub already_recorded: bool,
    pub effective_entries: usize,
}

/// The entries of a store, one for each key, in the order on keys.
#[derive(Clone, Debug)]
pub struct DispositionStore {
    entries: Vec<DispositionEntry>,
    scope: Option<String>,
    as_of: Option<Timestamp>,
    store_sha256: Option<String>,
}

/// Whether keys stand in strictly increasing order.
pub open spec fn in_key_order(list: Seq<DispositionEntry>) -> bool {
    forall|i: int, j: int|
        0 <= i < j < list.len() ==> key_before(
            (#[trigger] list[i]).key@,
            (#[trigger] list[j]).key@,
        )
}

/// The entry of a list with a key: the last one that was written.
pub open spec fn latest(list: Seq<DispositionEntry>, key: Seq<Option<Seq<char>>>) -> Option<
    DispositionEntry,
>
    decreases list.len(),
{
    if list.len() == 0 {
        None
    } else if list.last().key@ == key {
        Some(list.last())
    } else {
        latest(list.drop_last(), key)
    }
}

proof fn lemma_latest_at(list: Seq<DispositionEntry>, i: int)
    requires
        in_key_order(list),
        0 <= i < list.len(),
    ensures
        latest(list, list[i].key@) == Some(list[i]),
    decreases list.len(),
{
    let last = list.len() - 1;
    if i < last {
        key_order_is_total(list[i].key@, list[last].key@);
        assert(list.drop_last()[i] == list[i]);
        lemma_latest_at(list.drop_last(), i);
    }
}

proof fn lemma_latest_none(list: Seq<DispositionEntry>, key: Seq<Option<Seq<char>>>)
    requires
        forall|i: int| 0 <= i < list.len() ==> (#[trigger] list[i]).key@ != key,
    ensures
        latest(list, key) is None,
    decreases list.len(),
{
    if list.len() > 0 {
        lemma_latest_none(list.drop_last(), key);
    }
}

proof fn lemma_latest_found(list: Seq<DispositionEntry>, key: Seq<Option<Seq<char>>>) -> (i: int)
    requires
        latest(list, key) is Some,
    ensures
        0 <= i < list.len(),
        list[i].key@ == key,
        latest(list, key) == Some(list[i]),
    decreases list.len(),
{
    if list.last().key@ == key {
        list.len() - 1
    } else {
        lemma_latest_found(list.drop_last(), key)
    }
}

/// The entries of a scope among the first `n`.
pub open spec fn selected(list: Seq<DispositionEntry>, scope: Option<Seq<char>>, n: nat) -> Seq<
    DispositionEntry,
>
    decreases n,
{
    if n == 0 {
        seq![]
    } else {
        let before = selected(list, scope, (n - 1) as nat);
        if opt_text(list[n - 1].key.corpus_scope) == scope {
            before.push(list[n - 1])
        } else {
            before
        }
    }
}

/// How many of the first `n` entries have a deadline.
pub open spec fn with_deadline(list: Seq<DispositionEntry>, n: nat) -> nat
    decreases n,
{
    if n == 0 {
        0
    } else {
        with_deadline(list, (n - 1) as nat) + if deadline(list[n - 1]) is Some {
            1nat
        } else {
            0nat
        }
    }
}

/// Whether a deadline has come.
pub open spec fn is_due(limit: Timestamp, now: Timestamp) -> bool {
    !now.before(limit)
}

/// How many of the first `n` entries are due.
pub open spec fn due_by(list: Seq<DispositionEntry>, now: Timestamp, n: nat) -> nat
    decreases n,
{
    if n == 0 {
        0
    } else {
        due_by(list, now, (n - 1) as nat) + if deadline(list[n - 1]) matches Some(limit) && is_due(
            limit,
            now,
        ) {
            1nat
        } else {
            0nat
        }
    }
}

fn same_option(a: &Option<String>, b: &Option<String>) -> (r: bool)
    ensures
        r == (opt_text(*a) == opt_text(*b)),
{
    match (a, b) {
        (Some(x), Some(y)) => same_text(x.as_str(), y.as_str()),
        (None, None) => true,
        _ => false,
    }
}

fn same_review(a: &Option<DispositionReview>, b: &Option<DispositionReview>) -> (r: bool)
    ensures
        r == (opt_review(*a) == opt_review(*b)),
{
    match (a, b) {
        (Some(x), Some(y)) => {
            let same_time = match (x.review_after, y.review_after) {
                (Some(s), Some(t)) => s == t,
                (None, None) => true,
                _ => false,
            };
            same_time && same_option(&x.reviewer, &y.reviewer) && same_option(
                &x.evidence_run,
                &y.evidence_run,
            ) && same_option(&x.nuclei_revision, &y.nuclei_revision)
        },
        (None, None) => true,
        _ => false,
    }
}

/// A comment, where it says something.
pub open spec fn nonempty(comment: Option<Seq<char>>) -> Option<Seq<char>> {
    match comment {
        Some(text) => if text.len() == 0 {
            None
        } else {
            comment
        },
        None => None,
    }
}

/// Whether an entry already says what is to be recorded.
pub open spec fn says(
    entry: Option<DispositionEntry>,
    disposition: AnalystDisposition,
    comment: Option<Seq<char>>,
    review: Option<ReviewModel>,
) -> bool {
    entry matches Some(e) && e.disposition == disposition && opt_text(e.comment) == comment
        && opt_review(e.review) == review
}

/// Whether a result is what recording an opinion comes to: nothing where the store already says
/// the same, else an entry to append. An empty comment is none. Either way the result says how
/// many entries are then in effect.
pub open spec fn is_recording(
    listing: Seq<DispositionEntry>,
    key: DispositionKey,
    disposition: AnalystDisposition,
    comment: Option<Seq<char>>,
    review: Option<DispositionReview>,
    recorded_at: String,
    r: (RecordDispositionResult, Option<DispositionEntry>),
) -> bool {
    let said = says(latest(listing, key@), disposition, nonempty(comment), opt_review(review));
    &&& r.0.already_recorded == said
    &&& r.0.effective_entries == effective_after(listing, key@)
    &&& r.1 is None == said
    &&& r.1 matches Some(entry) ==> {
        &&& entry.safety_note@ == DISPOSITION_SAFETY_NOTE@
        &&& entry.key == key
        &&& entry.disposition == disposition
        &&& entry.recorded_at == recorded_at
        &&& opt_text(entry.comment) == nonempty(comment)
        &&& entry.review == review
    }
}

/// Whether the context of a store is disclosed.
pub open spec fn needs_context(
    list: Seq<DispositionEntry>,
    scope: Option<Seq<char>>,
    as_of: Option<Timestamp>,
) -> bool {
    scope is Some || as_of is Some || exists|i: int|
        0 <= i < list.len() && ((#[trigger] list[i]).review is Some || list[i].key.corpus_scope
            is Some)
}

impl Default for DispositionStore {
    fn default() -> (r: Self)
        ensures
            r.wf(),
            r.listing().len() == 0,
            r.selected_scope() is None,
            r.evaluated_as_of() is None,
            r.sha256() is None,
    {
        DispositionStore { entries: Vec::new(), scope: None, as_of: None, store_sha256: None }
    }
}

impl DispositionStore {
    pub closed spec fn listing(&self) -> Seq<DispositionEntry> {
        self.entries@
    }

    pub closed spec fn selected_scope(&self) -> Option<Seq<char>> {
        opt_text(self.scope)
    }

    pub closed spec fn evaluated_as_of(&self) -> Option<Timestamp> {
        self.as_of
    }

    pub closed spec fn sha256(&self) -> Option<Seq<char>> {
        opt_text(self.store_sha256)
    }

    pub open spec fn wf(&self) -> bool {
        in_key_order(self.listing())
    }

    /// The entry of a key in the selected scope.
    pub open spec fn opinion(&self, key: DispositionKey) -> Option<DispositionEntry> {
        latest(self.listing(), in_scope(key@, self.selected_scope()))
    }

    /// Where a key stands, or where it would have to be put.
    fn search(&self, key: &DispositionKey) -> (r: (bool, usize))
        requires
            self.wf(),
        ensures
            r.1 <= self.listing().len(),
            r.0 ==> r.1 < self.listing().len() && self.listing()[r.1 as int].key@ == key@
                && latest(self.listing(), key@) == Some(self.listing()[r.1 as int]),
            !r.0 ==> latest(self.listing(), key@) is None,
            !r.0 ==> forall|i: int|
                0 <= i < r.1 ==> key_before((#[trigger] self.listing()[i]).key@, key@),
            !r.0 ==> forall|i: int|
                r.1 <= i < self.listing().len() ==> key_before(
                    key@,
                    (#[trigger] self.listing()[i]).key@,
                ),
    {
        let ghost list = self.listing();
        let mut low: usize = 0;
        let mut high: usize = self.entries.len();
        while low < high
            invariant
                list == self.listing(),
                in_key_order(list),
                low <= high <= list.len(),
                forall|i: int| 0 <= i < low ==> key_before((#[trigger] list[i]).key@, key@),
                forall|i: int|
                    high <= i < list.len() ==> key_before(key@, (#[trigger] list[i]).key@),
            decreases high - low,
        {
            let middle: usize = low + (high - low) / 2;
            let ghost m = list[middle as int].key@;
            match compare_keys(&self.entries[middle].key, key) {
                TextOrder::Same => {
                    proof {
                        lemma_latest_at(list, middle as int);
                    }
                    return (true, middle);
                },
                TextOrder::Before => {
                    assert forall|i: int| 0 <= i < middle + 1 implies key_before(
                        (#[trigger] list[i]).key@,
                        key@,
                    ) by {
                        if i < middle {
                            key_order_is_transitive(list[i].key@, m, key@);
                        }
                    }
                    low = middle + 1;
                },
                TextOrder::After => {
                    assert forall|i: int| middle <= i < list.len() implies key_before(
                        key@,
                        (#[trigger] list[i]).key@,
                    ) by {
                        if middle < i {
                            key_order_is_transitive(key@, m, list[i].key@);
                        }
                    }
                    high = middle;
                },
            }
        }
        proof {
            assert forall|i: int| 0 <= i < list.len() implies (#[trigger] list[i]).key@ != key@ by {
                key_order_is_total(list[i].key@, key@);
            }
            lemma_latest_none(list, key@);
        }
        (false, low)
    }

    /// Adds an entry, in the place of an earlier one with its key.
    fn insert(&mut self, entry: DispositionEntry)
        requires
            old(self).wf(),
        ensures
            final(self).wf(),
            final(self).selected_scope() == old(self).selected_scope(),
            final(self).evaluated_as_of() == old(self).evaluated_as_of(),
            final(self).sha256() == old(self).sha256(),
            latest(final(self).listing(), entry.key@) == Some(entry),
            forall|k: Seq<Option<Seq<char>>>|
                k != entry.key@ ==> #[trigger] latest(final(self).listing(), k) == latest(
                    old(self).listing(),
                    k,
                ),
    {
        let ghost before = self.listing();
        let found = self.search(&entry.key);
        let ghost at = found.1 as int;
        if found.0 {
            self.entries.set(found.1, entry);
            proof {
                let after = self.listing();
                assert(after == before.update(at, entry));
                assert(in_key_order(after)) by {
                    assert forall|i: int, j: int| 0 <= i < j < after.len() implies key_before(
                        (#[trigger] after[i]).key@,
                        (#[trigger] after[j]).key@,
                    ) by {
                        assert(key_before(before[i].key@, before[j].key@));
                    }
                }
                lemma_latest_at(after, at);
                assert forall|k: Seq<Option<Seq<char>>>| k != entry.key@ implies #[trigger] latest(
                    after,
                    k,
                ) == latest(before, k) by {
                    lemma_other_entries(before, after, at, k);
                }
            }
        } else {
            self.entries.insert(found.1, entry);
            proof {
                let after = self.listing();
                assert(after == before.insert(at, entry));
                assert(in_key_order(after)) by {
                    assert forall|i: int, j: int| 0 <= i < j < after.len() implies key_before(
                        (#[trigger] after[i]).key@,
                        (#[trigger] after[j]).key@,
                    ) by {
                        if i < at && j == at {
                            assert(key_before(before[i].key@, entry.key@));
                        } else if i == at {
                            assert(key_before(entry.key@, before[j - 1].key@));
                        } else if i < at && j > at {
                            assert(key_before(before[i].key@, before[j - 1].key@));
                        } else if i > at {
                            assert(key_before(before[i - 1].key@, before[j - 1].key@));
                        } else {
                            assert(key_before(before[i].key@, before[j].key@));
                        }
                    }
                }
                lemma_latest_at(after, at);
                assert forall|k: Seq<Option<Seq<char>>>| k != entry.key@ implies #[trigger] latest(
                    after,
                    k,
                ) == latest(before, k) by {
                    lemma_inserted_entry(before, after, at, k);
                }
            }
        }
    }

    /// The store that entries amount to, in the order in which they were written. The latest
    /// entry with a key decides. `contents` is what the entries were read from.
    pub fn from_entries(list: Vec<DispositionEntry>, contents: &[u8]) -> (r: Self)
        ensures
            r.wf(),
            forall|k: Seq<Option<Seq<char>>>| #[trigger]
                latest(r.listing(), k) == latest(list@, k),
            r.selected_scope() is None,
            r.evaluated_as_of() is None,
            r.sha256() == Some(digest_text(contents@)),
    {
        let ghost all = list@;
        let mut store = DispositionStore {
            entries: Vec::new(),
            scope: None,
            as_of: None,
            store_sha256: Some(digest(contents)),
        };
        let ghost sum = digest_text(contents@);
        let mut rest = list;
        let mut written: Vec<DispositionEntry> = Vec::new();
        while rest.len() > 0
            invariant
                all == rest@ + written@.reverse(),
            decreases rest.len(),
        {
            match rest.pop() {
                Some(entry) => {
                    let ghost before = written@;
                    written.push(entry);
                    assert(written@.reverse() =~= seq![entry] + before.reverse());
                    assert(rest@ + written@.reverse() =~= all);
                },
                None => {},
            }
        }
        assert(written@.reverse() =~= all);
        let ghost mut done: int = 0;
        while written.len() > 0
            invariant
                store.wf(),
                0 <= done <= all.len(),
                written@.reverse() == all.skip(done),
                forall|k: Seq<Option<Seq<char>>>| #[trigger]
                    latest(store.listing(), k) == latest(all.take(done), k),
                store.selected_scope() is None,
                store.evaluated_as_of() is None,
                store.sha256() == Some(sum),
            decreases written.len(),
        {
            let ghost before = written@;
            match written.pop() {
                Some(entry) => {
                    proof {
                        assert(before.reverse()[0] == entry);
                        assert(all.skip(done).len() == before.len());
                        assert(all.skip(done)[0] == all[done]);
                        assert(written@.reverse() =~= before.reverse().skip(1));
                        assert(all.skip(done).skip(1) =~= all.skip(done + 1));
                        assert(all.take(done + 1).drop_last() =~= all.take(done));
                        assert(all.take(done + 1).last() == entry);
                    }
                    store.insert(entry);
                    proof {
                        done = done + 1;
                    }
                },
                None => {},
            }
        }
        proof {
            assert(written@.reverse().len() == 0);
            assert(all.skip(done).len() == all.len() - done);
            assert(all.take(done) =~= all);
        }
        store
    }

    pub fn get(&self, key: &DispositionKey) -> (r: Option<AnalystDisposition>)
        requires
            self.wf(),
        ensures
            r == (match self.opinion(*key) {
                Some(entry) => Some(entry.disposition),
                None => None,
            }),
    {
        let found = self.search(&key.scoped(&self.scope));
        if found.0 {
            Some(self.entries[found.1].disposition)
        } else {
            None
        }
    }

    /// The same store, in a scope and as of a point in time.
    pub fn select(self, scope: Option<String>, as_of: Option<Timestamp>) -> (r: Self)
        ensures
            r.listing() == self.listing(),
            r.selected_scope() == opt_text(scope),
            r.evaluated_as_of() == as_of,
            r.sha256() == self.sha256(),
    {
        DispositionStore {
            entries: self.entries,
            scope,
            as_of,
            store_sha256: self.store_sha256,
        }
    }

    pub fn review_evaluation_requested(&self) -> (r: bool)
        ensures
            r == self.evaluated_as_of() is Some,
    {
        self.as_of.is_some()
    }

    /// Whether an opinion is due for review; none without a deadline or a time of evaluation.
    pub fn review_due(&self, key: &DispositionKey) -> (r: Option<bool>)
        requires
            self.wf(),
        ensures
            r == (match self.opinion(*key) {
                Some(entry) => match (deadline(entry), self.evaluated_as_of()) {
                    (Some(limit), Some(now)) => Some(is_due(limit, now)),
                    _ => None,
                },
                None => None,
            }),
    {
        let found = self.search(&key.scoped(&self.scope));
        if !found.0 {
            return None;
        }
        match (deadline_of(&self.entries[found.1]), self.as_of) {
            (Some(limit), Some(now)) => Some(!now.is_before(&limit)),
            _ => None,
        }
    }

    /// What is needed to reproduce a selection. It is private, and absent for a store without
    /// scopes and reviews.
    pub fn review_context(&self) -> (r: Option<DispositionContext>)
        ensures
            match r {
                Some(context) => needs_context(
                    self.listing(),
                    self.selected_scope(),
                    self.evaluated_as_of(),
                ) && opt_text(context.corpus_scope) == self.selected_scope() && context.as_of
                    == self.evaluated_as_of() && opt_text(context.store_sha256) == self.sha256(),
                None => !needs_context(
                    self.listing(),
                    self.selected_scope(),
                    self.evaluated_as_of(),
                ),
            },
    {
        let mut needed = self.scope.is_some() || self.as_of.is_some();
        let mut i: usize = 0;
        while i < self.entries.len()
            invariant
                i <= self.listing().len(),
                self.listing() == self.entries@,
                needed == (self.selected_scope() is Some || self.evaluated_as_of() is Some
                    || exists|k: int|
                    0 <= k < i && ((#[trigger] self.listing()[k]).review is Some
                        || self.listing()[k].key.corpus_scope is Some)),
            decreases self.entries.len() - i,
        {
            let entry = &self.entries[i];
            if entry.review.is_some() || entry.key.corpus_scope.is_some() {
                needed = true;
                assert(self.listing()[i as int].review is Some
                    || self.listing()[i as int].key.corpus_scope is Some);
            }
            i = i + 1;
        }
        if needed {
            Some(
                DispositionContext {
                    corpus_scope: copied(&self.scope),
                    as_of: self.as_of,
                    store_sha256: copied(&self.store_sha256),
                },
            )
        } else {
            None
        }
    }

    /// The entries of the selected scope, in the order on keys.
    pub fn selected_entries(&self) -> (r: Vec<&DispositionEntry>)
        ensures
            r@.len() == selected(self.listing(), self.selected_scope(), self.listing().len()).len(),
            forall|i: int|
                0 <= i < r@.len() ==> *(#[trigger] r@[i]) == selected(
                    self.listing(),
                    self.selected_scope(),
                    self.listing().len(),
                )[i],
    {
        let mut r: Vec<&DispositionEntry> = Vec::new();
        let mut i: usize = 0;
        while i < self.entries.len()
            invariant
                i <= self.listing().len(),
                self.listing() == self.entries@,
                r@.len() == selected(self.listing(), self.selected_scope(), i as nat).len(),
                r@.len() <= i,
                forall|k: int|
                    0 <= k < r@.len() ==> *(#[trigger] r@[k]) == selected(
                        self.listing(),
                        self.selected_scope(),
                        i as nat,
                    )[k],
            decreases self.entries.len() - i,
        {
            let entry = &self.entries[i];
            if same_option(&entry.key.corpus_scope, &self.scope) {
                r.push(entry);
            }
            i = i + 1;
        }
        r
    }

    /// Counts what is selected, excluded and due. An entry that is due keeps its opinion.
    pub fn review_summary(&self) -> (r: DispositionReviewSummary)
        ensures
            ({
                let list = selected(
                    self.listing(),
                    self.selected_scope(),
                    self.listing().len(),
                );
                &&& r.selected_entries == list.len()
                &&& r.entries_excluded_by_scope == self.listing().len() - list.len()
                &&& r.entries_with_review_deadline == with_deadline(list, list.len())
                &&& match self.evaluated_as_of() {
                    Some(now) => r.entries_due_for_review matches Some(n) && n == due_by(
                        list,
                        now,
                        list.len(),
                    ),
                    None => r.entries_due_for_review is None,
                }
                &&& r.as_of == self.evaluated_as_of()
            }),
    {
        let list = self.selected_entries();
        let ghost chosen = selected(self.listing(), self.selected_scope(), self.listing().len());
        proof {
            lemma_selected_bounded(
                self.listing(),
                self.selected_scope(),
                self.listing().len(),
            );
        }
        let mut deadlines: usize = 0;
        let mut due: usize = 0;
        let mut i: usize = 0;
        while i < list.len()
            invariant
                list@.len() == chosen.len(),
                forall|k: int| 0 <= k < list@.len() ==> *(#[trigger] list@[k]) == chosen[k],
                i <= list@.len(),
                deadlines <= i,
                due <= i,
                deadlines == with_deadline(chosen, i as nat),
                match self.evaluated_as_of() {
                    Some(now) => due == due_by(chosen, now, i as nat),
                    None => due == 0,
                },
            decreases list.len() - i,
        {
            let limit = deadline_of(list[i]);
            if let Some(limit) = limit {
                deadlines = deadlines + 1;
                if let Some(now) = self.as_of {
                    if !now.is_before(&limit) {
                        due = due + 1;
                    }
                }
            }
            i = i + 1;
        }
        DispositionReviewSummary {
            selected_entries: list.len(),
            entries_excluded_by_scope: self.entries.len() - list.len(),
            entries_with_review_deadline: deadlines,
            entries_due_for_review: match self.as_of {
                Some(_) => Some(due),
                None => None,
            },
            as_of: self.as_of,
        }
    }

    pub fn len(&self) -> (r: usize)
        ensures
            r == self.listing().len(),
    {
        self.entries.len()
    }

    pub fn is_empty(&self) -> (r: bool)
        ensures
            r == (self.listing().len() == 0),
    {
        self.entries.len() == 0
    }

    /// What recording an opinion comes to: nothing where the store already says the same, else an
    /// entry to append. An empty comment is none.
    pub fn record_disposition_with_review(
        &self,
        key: DispositionKey,
        disposition: AnalystDisposition,
        comment: Option<String>,
        review: Option<DispositionReview>,
        recorded_at: String,
    ) -> (r: (RecordDispositionResult, Option<DispositionEntry>))
        requires
            self.wf(),
            effective_after(self.listing(), key@) <= usize::MAX,
        ensures
            is_recording(
                self.listing(),
                key,
                disposition,
                opt_text(comment),
                review,
                recorded_at,
                r,
            ),
    {
        let comment = match comment {
            Some(text) => if text.as_str().is_empty() {
                None
            } else {
                Some(text)
            },
            None => None,
        };
        let found = self.search(&key);
        if found.0 {
            let entry = &self.entries[found.1];
            if entry.disposition == disposition && same_option(&entry.comment, &comment)
                && same_review(&entry.review, &review) {
                return (
                    RecordDispositionResult {
                        already_recorded: true,
                        effective_entries: self.entries.len(),
                    },
                    None,
                );
            }
        }
        let entries: usize = if found.0 {
            self.entries.len()
        } else {
            self.entries.len() + 1
        };
        (
            RecordDispositionResult { already_recorded: false, effective_entries: entries },
            Some(
                DispositionEntry {
                    safety_note: DISPOSITION_SAFETY_NOTE.to_owned(),
                    key,
                    disposition,
                    recorded_at,
                    comment,
                    review,
                },
            ),
        )
    }

    /// Records an opinion without a review.
    pub fn record_disposition(
        &self,
        key: DispositionKey,
        disposition: AnalystDisposition,
        comment: Option<String>,
        recorded_at: String,
    ) -> (r: (RecordDispositionResult, Option<DispositionEntry>))
        requires
            self.wf(),
            effective_after(self.listing(), key@) <= usize::MAX,
        ensures
            is_recording(
                self.listing(),
                key,
                disposition,
                opt_text(comment),
                None,
                recorded_at,
                r,
            ),
    {
        self.record_disposition_with_review(key, disposition, comment, None, recorded_at)
    }
}

proof fn lemma_selected_bounded(
    list: Seq<DispositionEntry>,
    scope: Option<Seq<char>>,
    n: nat,
)
    requires
        n <= list.len(),
    ensures
        selected(list, scope, n).len() <= n,
    decreases n,
{
    if n > 0 {
        lemma_selected_bounded(list, scope, (n - 1) as nat);
    }
}

proof fn lemma_other_entries(
    before: Seq<DispositionEntry>,
    after: Seq<DispositionEntry>,
    at: int,
    k: Seq<Option<Seq<char>>>,
)
    requires
        in_key_order(before),
        in_key_order(after),
        0 <= at < before.len(),
        after == before.update(at, after[at]),
        before[at].key@ == after[at].key@,
        k != after[at].key@,
    ensures
        latest(after, k) == latest(before, k),
{
    if latest(before, k) is Some {
        let i = lemma_latest_found(before, k);
        assert(after[i] == before[i]);
        lemma_latest_at(after, i);
    } else {
        if latest(after, k) is Some {
            let i = lemma_latest_found(after, k);
            assert(after[i] == before[i]);
            lemma_latest_at(before, i);
        }
    }
}

proof fn lemma_inserted_entry(
    before: Seq<DispositionEntry>,
    after: Seq<DispositionEntry>,
    at: int,
    k: Seq<Option<Seq<char>>>,
)
    requires
        in_key_order(before),
        in_key_order(after),
        0 <= at <= before.len(),
        after == before.insert(at, after[at]),
        k != after[at].key@,
    ensures
        latest(after, k) == latest(before, k),
{
    if latest(before, k) is Some {
        let i = lemma_latest_found(before, k);
        let j = if i < at {
            i
        } else {
            i + 1
        };
        assert(after[j] == before[i]);
        lemma_latest_at(after, j);
    } else {
        if latest(after, k) is Some {
            let j = lemma_latest_found(after, k);
            let i = if j < at {
                j
            } else {
                j - 1
            };
            assert(after[j] == before[i]);
            lemma_latest_at(before, i);
        }
    }
}

/// The opinion that was recorded last is the one that holds; the opinions on other keys stay.
pub proof fn the_latest_opinion_holds(
    list: Seq<DispositionEntry>,
    entry: DispositionEntry,
    other: Seq<Option<Seq<char>>>,
)
    ensures
        latest(list.push(entry), entry.key@) == Some(entry),
        other != entry.key@ ==> latest(list.push(entry), other) == latest(list, other),
{
    assert(list.push(entry).drop_last() =~= list);
}

/// How many entries a store has in effect once it has an opinion on a key.
pub open spec fn effective_after(
    listing: Seq<DispositionEntry>,
    key: Seq<Option<Seq<char>>>,
) -> nat {
    if latest(listing, key) is Some {
        listing.len()
    } else {
        listing.len() + 1
    }
}

spec fn keys_of(list: Seq<DispositionEntry>) -> Seq<Seq<Option<Seq<char>>>> {
    list.map_values(|e: DispositionEntry| e.key@)
}

/// A listing has one entry for each key on which there is an opinion.
proof fn lemma_one_entry_for_each_key(list: Seq<DispositionEntry>)
    requires
        in_key_order(list),
    ensures
        keys_of(list).to_set().finite(),
        keys_of(list).to_set().len() == list.len(),
        forall|k: Seq<Option<Seq<char>>>|
            #![trigger keys_of(list).to_set().contains(k)]
            #![trigger latest(list, k)]
            keys_of(list).to_set().contains(k) == (latest(list, k) is Some),
{
    let keys = keys_of(list);
    assert forall|i: int, j: int| 0 <= i < keys.len() && 0 <= j < keys.len() && i != j implies keys[i]
        != keys[j] by {
        key_order_is_total(keys[i], keys[j]);
        if i < j {
            assert(key_before(list[i].key@, list[j].key@));
        } else {
            assert(key_before(list[j].key@, list[i].key@));
        }
    }
    assert(keys.no_duplicates());
    keys.unique_seq_to_set();
    assert forall|k: Seq<Option<Seq<char>>>|
        #![trigger keys_of(list).to_set().contains(k)]
        #![trigger latest(list, k)]
        keys_of(list).to_set().contains(k) == (latest(list, k) is Some) by {
        if latest(list, k) is Some {
            let i = lemma_latest_found(list, k);
            assert(keys[i] == k);
        }
        if keys.to_set().contains(k) {
            let i = keys.index_of(k);
            assert(keys[i] == k);
            lemma_latest_at(list, i);
        }
    }
}

/// An entry that was appended is in effect, and to record the same again leaves the number of
/// effective entries as the first recording gave it. `log` is what was written before.
pub proof fn recording_again_keeps_the_count(
    before: DispositionStore,
    after: DispositionStore,
    log: Seq<DispositionEntry>,
    entry: DispositionEntry,
)
    requires
        before.wf(),
        after.wf(),
        forall|k: Seq<Option<Seq<char>>>| #[trigger]
            latest(before.listing(), k) == latest(log, k),
        forall|k: Seq<Option<Seq<char>>>| #[trigger]
            latest(after.listing(), k) == latest(log.push(entry), k),
    ensures
        after.listing().len() == effective_after(before.listing(), entry.key@),
        effective_after(after.listing(), entry.key@) == effective_after(
            before.listing(),
            entry.key@,
        ),
{
    let (b, a) = (before.listing(), after.listing());
    lemma_one_entry_for_each_key(b);
    lemma_one_entry_for_each_key(a);
    let known = keys_of(b).to_set();
    let now = keys_of(a).to_set();
    assert forall|k: Seq<Option<Seq<char>>>| now.contains(k) == known.insert(entry.key@).contains(
        k,
    ) by {
        the_latest_opinion_holds(log, entry, k);
        assert(latest(a, k) == latest(log.push(entry), k));
        assert(latest(b, k) == latest(log, k));
    }
    assert(now =~= known.insert(entry.key@));
    assert(latest(b, entry.key@) is Some == known.contains(entry.key@));
    the_latest_opinion_holds(log, entry, entry.key@);
    assert(latest(a, entry.key@) == latest(log.push(entry), entry.key@));
}

/// To record an opinion twice is to record it once: the second call finds it recorded, appends
/// nothing, and counts as many effective entries as the first. A comment that is empty and none at
/// all are the same. `log` is what was written before the first call, and the first call may have
/// appended to it; the stores are those that the two calls read.
pub proof fn recording_twice_is_recording_once(
    before: DispositionStore,
    after: DispositionStore,
    log: Seq<DispositionEntry>,
    key: DispositionKey,
    disposition: AnalystDisposition,
    comment: Option<Seq<char>>,
    same_comment: Option<Seq<char>>,
    review: Option<DispositionReview>,
    times: (String, String),
    first: (RecordDispositionResult, Option<DispositionEntry>),
    second: (RecordDispositionResult, Option<DispositionEntry>),
)
    requires
        before.wf(),
        after.wf(),
        forall|k: Seq<Option<Seq<char>>>| #[trigger]
            latest(before.listing(), k) == latest(log, k),
        forall|k: Seq<Option<Seq<char>>>| #[trigger]
            latest(after.listing(), k) == latest(
                match first.1 {
                    Some(entry) => log.push(entry),
                    None => log,
                },
                k,
            ),
        nonempty(same_comment) == nonempty(comment),
        is_recording(before.listing(), key, disposition, comment, review, times.0, first),
        is_recording(after.listing(), key, disposition, same_comment, review, times.1, second),
    ensures
        second.0.already_recorded,
        second.1 is None,
        second.0.effective_entries == first.0.effective_entries,
{
    match first.1 {
        Some(entry) => {
            the_latest_opinion_holds(log, entry, key@);
            recording_again_keeps_the_count(before, after, log, entry);
            assert(latest(after.listing(), key@) == latest(log.push(entry), key@));
        },
        None => {
            let (b, a) = (before.listing(), after.listing());
            lemma_one_entry_for_each_key(b);
            lemma_one_entry_for_each_key(a);
            assert forall|k: Seq<Option<Seq<char>>>| keys_of(a).to_set().contains(k) == keys_of(
                b,
            ).to_set().contains(k) by {
                assert(latest(a, k) == latest(log, k));
                assert(latest(b, k) == latest(log, k));
            }
            assert(keys_of(a).to_set() =~= keys_of(b).to_set());
            assert(latest(a, key@) == latest(log, key@));
            assert(latest(b, key@) == latest(log, key@));
        },
    }
}

/// What was recorded need not be recorded again.
pub proof fn recording_again_adds_nothing(
    list: Seq<DispositionEntry>,
    entry: DispositionEntry,
    comment: Option<Seq<char>>,
)
    requires
        opt_text(entry.comment) == nonempty(comment),
    ensures
        says(
            latest(list.push(entry), entry.key@),
            entry.disposition,
            nonempty(comment),
            opt_review(entry.review),
        ),
{
    the_latest_opinion_holds(list, entry, entry.key@);
}

/// An opinion of one scope is not seen in another.
pub proof fn scopes_are_exact(
    store: DispositionStore,
    key: DispositionKey,
    entry: DispositionEntry,
)
    requires
        store.wf(),
        store.opinion(key) == Some(entry),
    ensures
        opt_text(entry.key.corpus_scope) == store.selected_scope(),
{
    let wanted = in_scope(key@, store.selected_scope());
    let i = lemma_latest_found(store.listing(), wanted);
    assert(entry.key@[5] == wanted[5]);
}

} // verus!
