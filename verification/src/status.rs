//! Counts of response statuses, by class and by code.

use crate::numbers::Ratio;
use std::collections::BTreeMap;
use vstd::prelude::*;
use vstd::std_specs::btree::increasing_seq;
use vstd::std_specs::cmp::OrdSpec;
use vstd::std_specs::iter::IteratorSpec;

verus! {

broadcast use vstd::std_specs::btree::group_btree_axioms;

pub const DEFAULT_MAX_STATUS_CODES_PER_ENTITY: usize = 128;

/// How many responses fell into each status class.
#[derive(Clone, Copy, Debug, PartialEq, Eq, Structural)]
pub struct StatusClassCounts {
    pub informational: u64,
    pub success: u64,
    pub redirection: u64,
    pub client_error: u64,
    /// nginx 499 responses, also counted in `client_error`.
    pub client_closed_request_499: u64,
    pub server_error: u64,
    pub other: u64,
    pub unavailable: u64,
}

impl Default for StatusClassCounts {
    fn default() -> (r: Self)
        ensures
            r == StatusClassCounts::none(),
    {
        StatusClassCounts {
            informational: 0,
            success: 0,
            redirection: 0,
            client_error: 0,
            client_closed_request_499: 0,
            server_error: 0,
            other: 0,
            unavailable: 0,
        }
    }
}

impl StatusClassCounts {
    pub open spec fn none() -> Self {
        StatusClassCounts {
            informational: 0,
            success: 0,
            redirection: 0,
            client_error: 0,
            client_closed_request_499: 0,
            server_error: 0,
            other: 0,
            unavailable: 0,
        }
    }

    /// The number of responses counted. The 499 responses are part of the client errors.
    pub open spec fn total(self) -> nat {
        (self.informational + self.success + self.redirection + self.client_error
            + self.server_error + self.other + self.unavailable) as nat
    }

    /// The counts can be totalled, and the 499 responses are no more than the client errors.
    pub open spec fn wf(self) -> bool {
        &&& self.client_closed_request_499 <= self.client_error
        &&& self.total() <= u64::MAX
    }

    /// The counts after one more response, with the status it had.
    pub open spec fn recorded(self, status: Option<u16>) -> Self {
        match status {
            None => StatusClassCounts { unavailable: (self.unavailable + 1) as u64, ..self },
            Some(code) => if 100 <= code <= 199 {
                StatusClassCounts { informational: (self.informational + 1) as u64, ..self }
            } else if 200 <= code <= 299 {
                StatusClassCounts { success: (self.success + 1) as u64, ..self }
            } else if 300 <= code <= 399 {
                StatusClassCounts { redirection: (self.redirection + 1) as u64, ..self }
            } else if code == 499 {
                StatusClassCounts {
                    client_error: (self.client_error + 1) as u64,
                    client_closed_request_499: (self.client_closed_request_499 + 1) as u64,
                    ..self
                }
            } else if 400 <= code <= 498 {
                StatusClassCounts { client_error: (self.client_error + 1) as u64, ..self }
            } else if 500 <= code <= 599 {
                StatusClassCounts { server_error: (self.server_error + 1) as u64, ..self }
            } else {
                StatusClassCounts { other: (self.other + 1) as u64, ..self }
            },
        }
    }

    /// Whether the counters that a response with this status falls to can grow.
    pub open spec fn can_record(self, status: Option<u16>) -> bool {
        match status {
            None => self.unavailable < u64::MAX,
            Some(code) => if 100 <= code <= 199 {
                self.informational < u64::MAX
            } else if 200 <= code <= 299 {
                self.success < u64::MAX
            } else if 300 <= code <= 399 {
                self.redirection < u64::MAX
            } else if code == 499 {
                self.client_error < u64::MAX && self.client_closed_request_499 < u64::MAX
            } else if 400 <= code <= 498 {
                self.client_error < u64::MAX
            } else if 500 <= code <= 599 {
                self.server_error < u64::MAX
            } else {
                self.other < u64::MAX
            },
        }
    }

    /// The sums of two sets of counts.
    pub open spec fn sum(self, other: Self) -> Self {
        StatusClassCounts {
            informational: (self.informational + other.informational) as u64,
            success: (self.success + other.success) as u64,
            redirection: (self.redirection + other.redirection) as u64,
            client_error: (self.client_error + other.client_error) as u64,
            client_closed_request_499: (self.client_closed_request_499
                + other.client_closed_request_499) as u64,
            server_error: (self.server_error + other.server_error) as u64,
            other: (self.other + other.other) as u64,
            unavailable: (self.unavailable + other.unavailable) as u64,
        }
    }

    /// Whether each counter can take the count of another set.
    pub open spec fn can_merge(self, other: Self) -> bool {
        &&& self.informational + other.informational <= u64::MAX
        &&& self.success + other.success <= u64::MAX
        &&& self.redirection + other.redirection <= u64::MAX
        &&& self.client_error + other.client_error <= u64::MAX
        &&& self.client_closed_request_499 + other.client_closed_request_499 <= u64::MAX
        &&& self.server_error + other.server_error <= u64::MAX
        &&& self.other + other.other <= u64::MAX
        &&& self.unavailable + other.unavailable <= u64::MAX
    }

    pub fn merge(&mut self, other: &Self)
        requires
            old(self).can_merge(*other),
        ensures
            *final(self) == old(self).sum(*other),
            final(self).total() == old(self).total() + other.total(),
            old(self).wf() && other.wf() && old(self).total() + other.total() <= u64::MAX
                ==> final(self).wf(),
    {
        self.informational = self.informational + other.informational;
        self.success = self.success + other.success;
        self.redirection = self.redirection + other.redirection;
        self.client_error = self.client_error + other.client_error;
        self.client_closed_request_499 = self.client_closed_request_499
            + other.client_closed_request_499;
        self.server_error = self.server_error + other.server_error;
        self.other = self.other + other.other;
        self.unavailable = self.unavailable + other.unavailable;
    }

    /// The client errors without the 499 responses.
    pub fn ordinary_client_error(&self) -> (r: u64)
        ensures
            r == (if self.client_error >= self.client_closed_request_499 {
                self.client_error - self.client_closed_request_499
            } else {
                0
            }),
    {
        if self.client_error >= self.client_closed_request_499 {
            self.client_error - self.client_closed_request_499
        } else {
            0
        }
    }

    /// Whether the counts can be totalled.
    pub fn can_total(&self) -> (r: bool)
        ensures
            r == (self.total() <= u64::MAX),
    {
        let total: u128 = self.informational as u128 + self.success as u128 + self.redirection as u128
            + self.client_error as u128 + self.server_error as u128 + self.other as u128
            + self.unavailable as u128;
        total <= u64::MAX as u128
    }

    pub fn total_observations(&self) -> (r: u64)
        requires
            self.total() <= u64::MAX,
        ensures
            r == self.total(),
    {
        self.informational + self.success + self.redirection + self.client_error
            + self.server_error + self.other + self.unavailable
    }
}

/// Counts one more response.
pub fn record_status_class(counts: &mut StatusClassCounts, status: Option<u16>)
    requires
        old(counts).can_record(status),
    ensures
        *final(counts) == old(counts).recorded(status),
        final(counts).total() == old(counts).total() + 1,
        old(counts).wf() && old(counts).total() < u64::MAX ==> final(counts).wf(),
{
    match status {
        None => {
            counts.unavailable = counts.unavailable + 1;
        },
        Some(code) => {
            if 100 <= code && code <= 199 {
                counts.informational = counts.informational + 1;
            } else if 200 <= code && code <= 299 {
                counts.success = counts.success + 1;
            } else if 300 <= code && code <= 399 {
                counts.redirection = counts.redirection + 1;
            } else if code == 499 {
                counts.client_error = counts.client_error + 1;
                counts.client_closed_request_499 = counts.client_closed_request_499 + 1;
            } else if 400 <= code && code <= 498 {
                counts.client_error = counts.client_error + 1;
            } else if 500 <= code && code <= 599 {
                counts.server_error = counts.server_error + 1;
            } else {
                counts.other = counts.other + 1;
            }
        },
    }
}

/// Every response is counted in exactly one class, and the 499 responses stay within the client
/// errors.
pub proof fn each_response_is_counted_once(counts: StatusClassCounts, status: Option<u16>)
    requires
        counts.can_record(status),
    ensures
        counts.recorded(status).total() == counts.total() + 1,
        counts.client_closed_request_499 <= counts.client_error ==> counts.recorded(
            status,
        ).client_closed_request_499 <= counts.recorded(status).client_error,
{
}

/// Exact counts of the codes that were retained. A code is admitted when it is first observed,
/// as long as there is room; each observation of a code without a place counts as an omission.
#[derive(Clone, Debug, PartialEq, Eq)]
pub struct StatusCodeCounts {
    pub counts: BTreeMap<u16, u64>,
    pub observations_beyond_cap: u64,
    pub maximum_codes: usize,
}

/// The mathematical value of a `StatusCodeCounts`.
pub struct CodeModel {
    pub counts: Map<u16, u64>,
    pub beyond: nat,
    pub maximum: nat,
}

impl View for StatusCodeCounts {
    type V = CodeModel;

    open spec fn view(&self) -> CodeModel {
        CodeModel {
            counts: self.counts@,
            beyond: self.observations_beyond_cap as nat,
            maximum: self.maximum_codes as nat,
        }
    }
}

impl CodeModel {
    pub open spec fn none(maximum: nat) -> CodeModel {
        CodeModel { counts: Map::empty(), beyond: 0, maximum }
    }

    /// The counts after `count` more observations of a code.
    pub open spec fn added(self, code: u16, count: u64) -> CodeModel {
        if self.counts.dom().contains(code) {
            CodeModel {
                counts: self.counts.insert(code, (self.counts[code] + count) as u64),
                ..self
            }
        } else if self.counts.dom().len() < self.maximum {
            CodeModel { counts: self.counts.insert(code, count), ..self }
        } else {
            CodeModel { beyond: self.beyond + count as nat, ..self }
        }
    }

    /// Whether the counter that grows can take `count` more observations of a code.
    pub open spec fn can_add(self, code: u16, count: u64) -> bool {
        if self.counts.dom().contains(code) {
            self.counts[code] + count <= u64::MAX
        } else if self.counts.dom().len() < self.maximum {
            true
        } else {
            self.beyond + count <= u64::MAX
        }
    }

    /// The counts after one more response, with room for `maximum` codes.
    pub open spec fn recorded(self, status: Option<u16>, maximum: nat) -> CodeModel {
        let limited = CodeModel { maximum, ..self };
        match status {
            Some(code) => limited.added(code, 1),
            None => limited,
        }
    }

    /// Whether the counter that grows can take one more response.
    pub open spec fn can_record(self, status: Option<u16>, maximum: nat) -> bool {
        status matches Some(code) ==> (CodeModel { maximum, ..self }).can_add(code, 1)
    }

    /// The number of observations counted, retained or not.
    pub open spec fn weight(self) -> nat {
        sum_below(self.counts, 65536) + self.beyond
    }

    /// The counts after adding a list of codes with their counts, in its order.
    pub open spec fn added_all(self, entries: Seq<(u16, u64)>) -> CodeModel
        decreases entries.len(),
    {
        if entries.len() == 0 {
            self
        } else {
            self.added_all(entries.drop_last()).added(entries.last().0, entries.last().1)
        }
    }

    /// Whether each counter that grows can take what a list of codes with their counts adds.
    pub open spec fn can_add_all(self, entries: Seq<(u16, u64)>) -> bool {
        forall|i: int|
            0 <= i < entries.len() ==> self.added_all(#[trigger] entries.take(i)).can_add(
                entries[i].0,
                entries[i].1,
            )
    }

    /// Whether each counter that grows can take what another set adds.
    pub open spec fn can_merge(self, other: CodeModel) -> bool {
        &&& self.beyond + other.beyond <= u64::MAX
        &&& (CodeModel { beyond: self.beyond + other.beyond, ..self }).can_add_all(
            ordered_entries(other.counts),
        )
    }

    /// The counts of another set added, its codes in increasing order.
    pub open spec fn merged(self, other: CodeModel) -> CodeModel {
        CodeModel { beyond: self.beyond + other.beyond, ..self }.added_all(
            ordered_entries(other.counts),
        )
    }
}

/// The sum of the counts of the codes below `n`.
pub open spec fn sum_below(counts: Map<u16, u64>, n: nat) -> nat
    decreases n,
{
    if n == 0 {
        0
    } else {
        sum_below(counts, (n - 1) as nat) + if counts.dom().contains((n - 1) as u16) {
            counts[(n - 1) as u16] as nat
        } else {
            0
        }
    }
}

proof fn lemma_sum_insert(counts: Map<u16, u64>, code: u16, value: u64, n: nat)
    requires
        n <= 65536,
    ensures
        sum_below(counts.insert(code, value), n) + (if code < n && counts.dom().contains(code) {
            counts[code] as nat
        } else {
            0
        }) == sum_below(counts, n) + (if code < n {
            value as nat
        } else {
            0
        }),
    decreases n,
{
    if n > 0 {
        lemma_sum_insert(counts, code, value, (n - 1) as nat);
    }
}

proof fn lemma_sum_holds(counts: Map<u16, u64>, code: u16, n: nat)
    requires
        n <= 65536,
        code < n,
        counts.dom().contains(code),
    ensures
        counts[code] <= sum_below(counts, n),
    decreases n,
{
    if code < n - 1 {
        lemma_sum_holds(counts, code, (n - 1) as nat);
    }
}

proof fn lemma_sum_empty(n: nat)
    ensures
        sum_below(Map::<u16, u64>::empty(), n) == 0,
    decreases n,
{
    if n > 0 {
        lemma_sum_empty((n - 1) as nat);
    }
}

/// The sum of the counts of a list of entries.
pub open spec fn entry_sum(entries: Seq<(u16, u64)>) -> nat
    decreases entries.len(),
{
    if entries.len() == 0 {
        0
    } else {
        entry_sum(entries.drop_last()) + entries.last().1 as nat
    }
}

proof fn lemma_entry_sum_grows(entries: Seq<(u16, u64)>, n: int)
    requires
        0 <= n <= entries.len(),
    ensures
        entry_sum(entries.take(n)) <= entry_sum(entries),
    decreases entries.len() - n,
{
    if n == entries.len() {
        assert(entries.take(n) =~= entries);
    } else {
        lemma_entry_sum_grows(entries, n + 1);
        assert(entries.take(n + 1).drop_last() =~= entries.take(n));
    }
}

/// The entries of a map of counts have the sum of the map.
proof fn lemma_entries_sum(entries: Seq<(u16, u64)>, counts: Map<u16, u64>)
    requires
        ascending_entries(entries),
        entries.to_set() == counts.kv_pairs(),
    ensures
        entry_sum(entries) == sum_below(counts, 65536),
    decreases entries.len(),
{
    if entries.len() == 0 {
        assert forall|c: u16| !counts.dom().contains(c) by {
            if counts.dom().contains(c) {
                assert(counts.kv_pairs().contains((c, counts[c])));
                assert(entries.to_set().contains((c, counts[c])));
            }
        }
        assert(counts =~= Map::<u16, u64>::empty());
        lemma_sum_empty(65536);
    } else {
        let (c, v) = entries.last();
        let rest = counts.remove(c);
        let list = entries.drop_last();
        assert(entries.to_set().contains(entries.last())) by {
            assert(entries[entries.len() - 1] == entries.last());
        }
        assert(counts.kv_pairs().contains((c, v)));
        assert(list.to_set() =~= rest.kv_pairs()) by {
            assert forall|e: (u16, u64)| list.to_set().contains(e) == rest.kv_pairs().contains(e) by {
                if list.to_set().contains(e) {
                    let i = list.index_of(e);
                    assert(entries[i] == e);
                    assert(entries.to_set().contains(e));
                    assert(counts.kv_pairs().contains(e));
                    assert(entries[i].0 < entries[entries.len() - 1].0);
                }
                if rest.kv_pairs().contains(e) {
                    assert(counts.kv_pairs().contains(e));
                    assert(entries.to_set().contains(e));
                    let i = entries.index_of(e);
                    assert(entries[i] == e);
                    assert(list[i] == e);
                }
            }
        }
        lemma_entries_sum(list, rest);
        assert(rest.insert(c, v) =~= counts);
        lemma_sum_insert(rest, c, v, 65536);
    }
}

/// Two lists of the same entries, both with the codes in increasing order, are equal.
proof fn lemma_entries_unique(a: Seq<(u16, u64)>, b: Seq<(u16, u64)>)
    requires
        ascending_entries(a),
        ascending_entries(b),
        a.to_set() == b.to_set(),
    ensures
        a == b,
    decreases a.len(),
{
    if a.len() == 0 {
        if b.len() > 0 {
            assert(b.to_set().contains(b[0]));
            assert(a.to_set().contains(b[0]));
        }
        assert(a =~= b);
    } else {
        assert(a.to_set().contains(a.last())) by {
            assert(a[a.len() - 1] == a.last());
        }
        assert(b.contains(a.last()));
        let k = b.index_of(a.last());
        assert(b[k] == a.last());
        assert(b.to_set().contains(b.last())) by {
            assert(b[b.len() - 1] == b.last());
        }
        assert(a.contains(b.last()));
        let m = a.index_of(b.last());
        assert(a[m] == b.last());
        if k < b.len() - 1 {
            assert(b[k].0 < b[b.len() - 1].0);
            if m < a.len() - 1 {
                assert(a[m].0 < a[a.len() - 1].0);
            }
        }
        assert(a.last() == b.last());
        let x = a.drop_last();
        let y = b.drop_last();
        assert(x.to_set() =~= y.to_set()) by {
            assert forall|e: (u16, u64)| x.to_set().contains(e) == y.to_set().contains(e) by {
                if x.to_set().contains(e) {
                    let i = x.index_of(e);
                    assert(a[i] == e);
                    assert(a[i].0 < a[a.len() - 1].0);
                    assert(a.to_set().contains(e));
                    assert(b.contains(e));
                    let j = b.index_of(e);
                    assert(b[j] == e);
                    assert(y[j] == e);
                }
                if y.to_set().contains(e) {
                    let i = y.index_of(e);
                    assert(b[i] == e);
                    assert(b[i].0 < b[b.len() - 1].0);
                    assert(b.to_set().contains(e));
                    assert(a.contains(e));
                    let j = a.index_of(e);
                    assert(a[j] == e);
                    assert(x[j] == e);
                }
            }
        }
        lemma_entries_unique(x, y);
        assert(a =~= x.push(a.last()));
        assert(b =~= y.push(b.last()));
    }
}

/// A map of counts is walked in the order of its entries.
proof fn lemma_listed(counts: &BTreeMap<u16, u64>)
    requires
        increasing_seq(
            vstd::std_specs::btree::spec_btree_map_iter(counts).remaining().map_values(
                |kv: (&u16, &u64)| *kv.0,
            ),
        ),
    ensures
        ({
            let walked = vstd::std_specs::btree::spec_btree_map_iter(counts).remaining();
            let entries = ordered_entries(counts@);
            &&& walked.len() == entries.len()
            &&& forall|i: int|
                0 <= i < entries.len() ==> #[trigger] entries[i] == (*walked[i].0, *walked[i].1)
            &&& entry_sum(entries) == sum_below(counts@, 65536)
        }),
{
    let walked = vstd::std_specs::btree::spec_btree_map_iter(counts).remaining();
    let keys = walked.map_values(|kv: (&u16, &u64)| *kv.0);
    let listed = walked.unref();
    assert forall|i: int, j: int| 0 <= i < j < listed.len() implies (#[trigger] listed[i]).0
        < (#[trigger] listed[j]).0 by {
        assert(keys[i].cmp_spec(&keys[j]) is Less);
    }
    assert(listed.to_set() == counts@.kv_pairs());
    lemma_entries_unique(listed, ordered_entries(counts@));
    lemma_entries_sum(listed, counts@);
}

/// Counts that can be totalled with more observations have room for them in each counter.
pub(crate) proof fn lemma_room_to_add(codes: CodeModel, code: u16, count: u64)
    requires
        codes.weight() + count <= u64::MAX,
    ensures
        codes.can_add(code, count),
{
    if codes.counts.dom().contains(code) {
        lemma_sum_holds(codes.counts, code, 65536);
    }
}

proof fn lemma_added_all(codes: CodeModel, entries: Seq<(u16, u64)>, n: int)
    requires
        0 <= n <= entries.len(),
        codes.weight() + entry_sum(entries) <= u64::MAX,
    ensures
        codes.added_all(entries.take(n)).weight() == codes.weight() + entry_sum(entries.take(n)),
        n < entries.len() ==> codes.added_all(entries.take(n)).can_add(entries[n].0, entries[n].1),
    decreases n,
{
    if n > 0 {
        lemma_added_all(codes, entries, n - 1);
        assert(entries.take(n).drop_last() =~= entries.take(n - 1));
        each_code_is_counted_once(
            codes.added_all(entries.take(n - 1)),
            entries[n - 1].0,
            entries[n - 1].1,
        );
    }
    if n < entries.len() {
        lemma_entry_sum_grows(entries, n + 1);
        assert(entries.take(n + 1).drop_last() =~= entries.take(n));
        lemma_room_to_add(codes.added_all(entries.take(n)), entries[n].0, entries[n].1);
    }
}

/// The entries of the codes below `n`, in increasing order.
spec fn entries_below(counts: Map<u16, u64>, n: nat) -> Seq<(u16, u64)>
    decreases n,
{
    if n == 0 {
        seq![]
    } else {
        let rest = entries_below(counts, (n - 1) as nat);
        let code = (n - 1) as u16;
        if counts.dom().contains(code) {
            rest.push((code, counts[code]))
        } else {
            rest
        }
    }
}

proof fn lemma_entries_below(counts: Map<u16, u64>, n: nat)
    requires
        n <= 65536,
    ensures
        ascending_entries(entries_below(counts, n)),
        forall|e: (u16, u64)| #[trigger]
            entries_below(counts, n).contains(e) <==> e.0 < n && counts.dom().contains(e.0)
                && counts[e.0] == e.1,
    decreases n,
{
    if n > 0 {
        let rest = entries_below(counts, (n - 1) as nat);
        let all = entries_below(counts, n);
        let code = (n - 1) as u16;
        lemma_entries_below(counts, (n - 1) as nat);
        assert forall|i: int| 0 <= i < rest.len() implies (#[trigger] rest[i]).0 < n - 1 by {
            assert(rest.contains(rest[i]));
        }
        assert forall|e: (u16, u64)| #[trigger] all.contains(e) <==> e.0 < n
            && counts.dom().contains(e.0) && counts[e.0] == e.1 by {
            if all.contains(e) {
                let i = all.index_of(e);
                if i < rest.len() {
                    assert(rest[i] == e);
                    assert(rest.contains(e));
                }
            }
            if e.0 < n && counts.dom().contains(e.0) && counts[e.0] == e.1 {
                if e.0 == code {
                    assert(all[all.len() - 1] == e);
                } else {
                    assert(rest.contains(e));
                    let i = rest.index_of(e);
                    assert(all[i] == e);
                }
            }
        }
    }
}

/// The entries of a map of counts are listed, the codes in increasing order.
proof fn lemma_ordered_entries(counts: Map<u16, u64>)
    ensures
        ascending_entries(ordered_entries(counts)),
        ordered_entries(counts).to_set() == counts.kv_pairs(),
{
    let all = entries_below(counts, 65536);
    lemma_entries_below(counts, 65536);
    assert(all.to_set() =~= counts.kv_pairs());
}

/// Two sets of counts that can be totalled together have room for each other in each counter.
pub(crate) proof fn lemma_room_to_merge(codes: CodeModel, other: CodeModel)
    requires
        codes.weight() + other.weight() <= u64::MAX,
    ensures
        codes.can_merge(other),
{
    let entries = ordered_entries(other.counts);
    let start = CodeModel { beyond: codes.beyond + other.beyond, ..codes };
    lemma_ordered_entries(other.counts);
    lemma_entries_sum(entries, other.counts);
    assert forall|i: int| 0 <= i < entries.len() implies start.added_all(
        #[trigger] entries.take(i),
    ).can_add(entries[i].0, entries[i].1) by {
        lemma_added_all(start, entries, i);
    }
}

/// Each observation of a code is counted once, with the code or as an omission.
pub proof fn each_code_is_counted_once(codes: CodeModel, code: u16, count: u64)
    requires
        codes.can_add(code, count),
    ensures
        codes.added(code, count).weight() == codes.weight() + count,
{
    if codes.counts.dom().contains(code) {
        lemma_sum_holds(codes.counts, code, 65536);
        lemma_sum_insert(codes.counts, code, (codes.counts[code] + count) as u64, 65536);
    } else {
        lemma_sum_insert(codes.counts, code, count, 65536);
    }
}

/// Codes with their counts, the codes in increasing order.
pub open spec fn ascending_entries(entries: Seq<(u16, u64)>) -> bool {
    forall|i: int, j: int|
        0 <= i < j < entries.len() ==> (#[trigger] entries[i]).0 < (#[trigger] entries[j]).0
}

/// The entries of a map of counts, the codes in increasing order.
pub open spec fn ordered_entries(counts: Map<u16, u64>) -> Seq<(u16, u64)> {
    choose|entries: Seq<(u16, u64)>|
        ascending_entries(entries) && entries.to_set() == counts.kv_pairs()
}

impl Default for StatusCodeCounts {
    fn default() -> (r: Self)
        ensures
            r@ == CodeModel::none(DEFAULT_MAX_STATUS_CODES_PER_ENTITY as nat),
            r@.weight() == 0,
    {
        proof {
            lemma_sum_empty(65536);
        }
        StatusCodeCounts {
            counts: BTreeMap::new(),
            observations_beyond_cap: 0,
            maximum_codes: DEFAULT_MAX_STATUS_CODES_PER_ENTITY,
        }
    }
}

impl StatusCodeCounts {
    /// No codes, with room for `maximum` of them.
    pub fn with_maximum(maximum: usize) -> (r: Self)
        ensures
            r@ == CodeModel::none(maximum as nat),
            r@.weight() == 0,
    {
        proof {
            lemma_sum_empty(65536);
        }
        StatusCodeCounts {
            counts: BTreeMap::new(),
            observations_beyond_cap: 0,
            maximum_codes: maximum,
        }
    }

    pub fn record(&mut self, status: Option<u16>, maximum: usize)
        requires
            old(self)@.can_record(status, maximum as nat),
        ensures
            final(self)@ == old(self)@.recorded(status, maximum as nat),
            final(self)@.weight() == old(self)@.weight() + if status is Some {
                1nat
            } else {
                0nat
            },
    {
        self.maximum_codes = maximum;
        if let Some(code) = status {
            self.add(code, 1);
        }
    }

    pub fn add(&mut self, code: u16, count: u64)
        requires
            old(self)@.can_add(code, count),
        ensures
            final(self)@ == old(self)@.added(code, count),
            final(self)@.weight() == old(self)@.weight() + count,
    {
        proof {
            each_code_is_counted_once(self@, code, count);
        }
        let known = match self.counts.get(&code) {
            Some(current) => Some(*current),
            None => None,
        };
        match known {
            Some(current) => {
                let _ = self.counts.insert(code, current + count);
            },
            None => {
                if self.counts.len() < self.maximum_codes {
                    let _ = self.counts.insert(code, count);
                } else {
                    self.observations_beyond_cap = self.observations_beyond_cap + count;
                }
            },
        }
    }

    pub fn copy(&self) -> (r: Self)
        ensures
            r@ == self@,
    {
        StatusCodeCounts {
            counts: self.counts.clone(),
            observations_beyond_cap: self.observations_beyond_cap,
            maximum_codes: self.maximum_codes,
        }
    }

    /// The number of observations counted, retained or not, where it can be held.
    pub fn observations(&self) -> (r: Option<u64>)
        ensures
            match r {
                Some(n) => n == self@.weight(),
                None => self@.weight() > u64::MAX,
            },
    {
        let ghost entries = ordered_entries(self.counts@);
        let walk = self.counts.iter();
        proof {
            lemma_listed(&self.counts);
        }
        let mut total: u64 = self.observations_beyond_cap;
        for kv in it: walk
            invariant
                it.seq().len() == entries.len(),
                forall|i: int| 0 <= i < entries.len() ==> #[trigger] entries[i] == (*it.seq()[i].0, *it.seq()[i].1),
                entry_sum(entries) == sum_below(self.counts@, 65536),
                total == self.observations_beyond_cap + entry_sum(
                    entries.take(it.index() as int),
                ),
        {
            proof {
                let n = it.index() as int;
                lemma_entry_sum_grows(entries, n + 1);
                assert(entries.take(n + 1).drop_last() =~= entries.take(n));
                assert(entries[n] == (*kv.0, *kv.1));
            }
            match total.checked_add(*kv.1) {
                Some(n) => {
                    total = n;
                },
                None => {
                    return None;
                },
            }
        }
        assert(entries.take(entries.len() as int) =~= entries);
        Some(total)
    }

    /// Adds the counts of another set, its codes in increasing order.
    pub fn merge(&mut self, other: &Self)
        requires
            old(self)@.can_merge(other@),
        ensures
            final(self)@ == old(self)@.merged(other@),
            final(self)@.weight() == old(self)@.weight() + other@.weight(),
    {
        let ghost before = self@;
        self.observations_beyond_cap = self.observations_beyond_cap + other.observations_beyond_cap;
        let ghost start = self@;
        let ghost entries = ordered_entries(other.counts@);
        let walk = other.counts.iter();
        proof {
            lemma_listed(&other.counts);
        }
        for kv in it: walk
            invariant
                start == (CodeModel { beyond: before.beyond + other@.beyond, ..before }),
                before.can_merge(other@),
                entries == ordered_entries(other@.counts),
                it.seq().len() == entries.len(),
                forall|i: int| 0 <= i < entries.len() ==> #[trigger] entries[i] == (*it.seq()[i].0, *it.seq()[i].1),
                entry_sum(entries) == sum_below(other.counts@, 65536),
                self@ == start.added_all(entries.take(it.index() as int)),
                self@.weight() == start.weight() + entry_sum(entries.take(it.index() as int)),
        {
            proof {
                let n = it.index() as int;
                assert(entries.take(n + 1).drop_last() =~= entries.take(n));
                assert(entries[n] == (*kv.0, *kv.1));
                assert(start.added_all(entries.take(n)).can_add(entries[n].0, entries[n].1));
            }
            self.add(*kv.0, *kv.1);
        }
        assert(entries.take(entries.len() as int) =~= entries);
    }
}

/// Aggregate response outcomes. Shares are of all observed responses, unavailable ones included.
#[derive(Clone, Copy, Debug, PartialEq, Eq, Structural)]
pub struct ResponseOutcomeSummary {
    pub counts: StatusClassCounts,
    pub success_share: Ratio,
    pub redirection_share: Ratio,
    /// Client errors without the separately reported 499 responses.
    pub ordinary_client_error_share: Ratio,
    pub client_closed_request_499_share: Ratio,
    pub server_error_share: Ratio,
}

pub open spec fn share_of(count: u64, total: nat) -> Ratio {
    Ratio { numerator: count, denominator: total as u64 }
}

pub open spec fn outcome_summary(counts: StatusClassCounts) -> ResponseOutcomeSummary {
    ResponseOutcomeSummary {
        counts,
        success_share: share_of(counts.success, counts.total()),
        redirection_share: share_of(counts.redirection, counts.total()),
        ordinary_client_error_share: share_of(
            (counts.client_error - counts.client_closed_request_499) as u64,
            counts.total(),
        ),
        client_closed_request_499_share: share_of(
            counts.client_closed_request_499,
            counts.total(),
        ),
        server_error_share: share_of(counts.server_error, counts.total()),
    }
}

pub fn response_outcome_summary(counts: &StatusClassCounts) -> (r: ResponseOutcomeSummary)
    requires
        counts.wf(),
    ensures
        r == outcome_summary(*counts),
{
    let total = counts.total_observations();
    ResponseOutcomeSummary {
        counts: *counts,
        success_share: Ratio { numerator: counts.success, denominator: total },
        redirection_share: Ratio { numerator: counts.redirection, denominator: total },
        ordinary_client_error_share: Ratio {
            numerator: counts.ordinary_client_error(),
            denominator: total,
        },
        client_closed_request_499_share: Ratio {
            numerator: counts.client_closed_request_499,
            denominator: total,
        },
        server_error_share: Ratio { numerator: counts.server_error, denominator: total },
    }
}

} // verus!
