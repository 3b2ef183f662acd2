//! Exact ratios and medians, ranking by counts, and a map from whole numbers to values.

use vstd::prelude::*;
use vstd::relations::*;
use vstd::seq_lib::*;

verus! {

/// A quotient of two counts, kept exact. With a denominator of zero it stands for zero.
#[derive(Clone, Copy, Debug, PartialEq, Eq, Structural)]
pub struct Ratio {
    pub numerator: u64,
    pub denominator: u64,
}

/// The two middle values of a sorted list, which are the same one where the list has an odd
/// length. The median is their mean.
#[derive(Clone, Copy, Debug, PartialEq, Eq, Structural)]
pub struct Median {
    pub lower: u64,
    pub upper: u64,
}

/// Values in increasing order.
pub open spec fn sorted(values: Seq<u64>) -> Seq<u64> {
    values.sort_by(|a: u64, b: u64| a <= b)
}

/// The median of a list; none where the list is empty.
pub open spec fn median_of(values: Seq<u64>) -> Option<Median> {
    if values.len() == 0 {
        None
    } else {
        Some(
            Median {
                lower: sorted(values)[(values.len() - 1) / 2],
                upper: sorted(values)[values.len() as int / 2],
            },
        )
    }
}

/// The largest value of a list; none where the list is empty.
pub open spec fn largest_of(values: Seq<u64>) -> Option<u64> {
    if values.len() == 0 {
        None
    } else {
        Some(sorted(values)[values.len() - 1])
    }
}

/// Whether position `a` ranks before position `b`: a larger count first, and among equal counts
/// the smaller position.
pub open spec fn ranks_before(counts: Seq<u64>, a: int, b: int) -> bool {
    counts[a] > counts[b] || (counts[a] == counts[b] && a < b)
}

pub open spec fn in_rank_order(order: Seq<usize>, counts: Seq<u64>) -> bool {
    &&& forall|i: int| 0 <= i < order.len() ==> (#[trigger] order[i]) < counts.len()
    &&& forall|i: int, j: int|
        0 <= i < j < order.len() ==> ranks_before(
            counts,
            #[trigger] order[i] as int,
            #[trigger] order[j] as int,
        )
}

/// Whether `order` lists every position once, in rank order.
pub open spec fn is_ranking(order: Seq<usize>, counts: Seq<u64>) -> bool {
    &&& in_rank_order(order, counts)
    &&& order.len() == counts.len()
}

/// Whether a position stands in a list of positions.
pub open spec fn lists(order: Seq<usize>, p: int) -> bool {
    exists|i: int| 0 <= i < order.len() && #[trigger] order[i] == p
}

fn merge_ranked(counts: &Vec<u64>, left: &Vec<usize>, right: &Vec<usize>, split: Ghost<int>) -> (r:
    Vec<usize>)
    requires
        in_rank_order(left@, counts@),
        in_rank_order(right@, counts@),
        forall|i: int| 0 <= i < left@.len() ==> (#[trigger] left@[i]) < split@,
        forall|i: int| 0 <= i < right@.len() ==> (#[trigger] right@[i]) >= split@,
        left@.len() + right@.len() <= usize::MAX,
    ensures
        in_rank_order(r@, counts@),
        r@.len() == left@.len() + right@.len(),
        forall|i: int| 0 <= i < r@.len() ==> left@.contains(#[trigger] r@[i]) || right@.contains(
            r@[i],
        ),
{
    let mut r: Vec<usize> = Vec::new();
    let mut i: usize = 0;
    let mut j: usize = 0;
    while i < left.len() || j < right.len()
        invariant
            i <= left@.len(),
            j <= right@.len(),
            r@.len() == i + j,
            left@.len() + right@.len() <= usize::MAX,
            in_rank_order(left@, counts@),
            in_rank_order(right@, counts@),
            in_rank_order(r@, counts@),
            forall|k: int| 0 <= k < left@.len() ==> (#[trigger] left@[k]) < split@,
            forall|k: int| 0 <= k < right@.len() ==> (#[trigger] right@[k]) >= split@,
            forall|k: int| 0 <= k < r@.len() ==> left@.contains(#[trigger] r@[k])
                || right@.contains(r@[k]),
            forall|k: int, m: int|
                0 <= k < r@.len() && i <= m < left@.len() ==> ranks_before(
                    counts@,
                    #[trigger] r@[k] as int,
                    #[trigger] left@[m] as int,
                ),
            forall|k: int, m: int|
                0 <= k < r@.len() && j <= m < right@.len() ==> ranks_before(
                    counts@,
                    #[trigger] r@[k] as int,
                    #[trigger] right@[m] as int,
                ),
        decreases left.len() - i + right.len() - j,
    {
        let take_left = if i >= left.len() {
            false
        } else if j >= right.len() {
            true
        } else {
            counts[left[i]] >= counts[right[j]]
        };
        if take_left {
            assert(left@.contains(left@[i as int]));
            r.push(left[i]);
            i = i + 1;
        } else {
            assert(right@.contains(right@[j as int]));
            r.push(right[j]);
            j = j + 1;
        }
    }
    r
}

fn rank_range(counts: &Vec<u64>, from: usize, to: usize) -> (r: Vec<usize>)
    requires
        from <= to <= counts@.len(),
    ensures
        in_rank_order(r@, counts@),
        r@.len() == to - from,
        forall|i: int| 0 <= i < r@.len() ==> from <= (#[trigger] r@[i]) < to,
    decreases to - from,
{
    if to - from == 0 {
        return Vec::new();
    }
    if to - from == 1 {
        let mut r: Vec<usize> = Vec::new();
        r.push(from);
        return r;
    }
    let middle: usize = from + (to - from) / 2;
    let left = rank_range(counts, from, middle);
    let right = rank_range(counts, middle, to);
    let r = merge_ranked(counts, &left, &right, Ghost(middle as int));
    assert forall|i: int| 0 <= i < r@.len() implies from <= (#[trigger] r@[i]) < to by {
        if left@.contains(r@[i]) {
            let k = left@.index_of(r@[i]);
            assert(left@[k] == r@[i]);
        } else {
            let k = right@.index_of(r@[i]);
            assert(right@[k] == r@[i]);
        }
    }
    r
}

/// The positions of the counts, the largest count first and equal counts by position.
pub fn rank(counts: &Vec<u64>) -> (r: Vec<usize>)
    ensures
        is_ranking(r@, counts@),
{
    rank_range(counts, 0, counts.len())
}

/// A ranking lists every position.
pub proof fn lemma_ranking_covers(order: Seq<usize>, counts: Seq<u64>)
    requires
        is_ranking(order, counts),
    ensures
        order.no_duplicates(),
        forall|p: int| 0 <= p < counts.len() ==> #[trigger] lists(order, p),
{
    assert forall|i: int, j: int| 0 <= i < order.len() && 0 <= j < order.len() && i != j implies order[i]
        != order[j] by {
        if i < j {
            assert(ranks_before(counts, order[i] as int, order[j] as int));
        } else {
            assert(ranks_before(counts, order[j] as int, order[i] as int));
        }
    }
    let positions = order.map_values(|p: usize| p as int);
    assert(positions.no_duplicates());
    positions.unique_seq_to_set();
    vstd::set_lib::lemma_int_range(0, counts.len() as int);
    let all = vstd::set_lib::set_int_range(0, counts.len() as int);
    assert(positions.to_set().subset_of(all)) by {
        assert forall|p: int| positions.to_set().contains(p) implies all.contains(p) by {
            let i = positions.index_of(p);
            assert(order[i] < counts.len());
        }
    }
    vstd::set_lib::lemma_subset_equality(positions.to_set(), all);
    assert forall|p: int| 0 <= p < counts.len() implies #[trigger] lists(order, p) by {
        assert(all.contains(p));
        assert(positions.contains(p));
        let i = positions.index_of(p);
        assert(positions[i] == p);
        assert(order[i] == p);
    }
}

/// The values in the order of a ranking are the sorted values, the largest first.
pub proof fn lemma_ranking_sorts(order: Seq<usize>, counts: Seq<u64>)
    requires
        is_ranking(order, counts),
    ensures
        sorted(counts).len() == counts.len(),
        forall|i: int| 0 <= i < counts.len() ==> #[trigger] sorted(counts)[i] == counts[order[counts.len() - 1
            - i] as int],
{
    let leq = |a: u64, b: u64| a <= b;
    let listed = Seq::new(counts.len(), |i: int| counts[order[counts.len() - 1 - i] as int]);
    lemma_ranking_covers(order, counts);
    counts.lemma_sort_by_ensures(leq);
    assert(sorted_by(listed, leq)) by {
        assert forall|i: int, j: int| 0 <= i < j < listed.len() implies #[trigger] leq(
            listed[i],
            listed[j],
        ) by {
            assert(ranks_before(
                counts,
                order[counts.len() - 1 - j] as int,
                order[counts.len() - 1 - i] as int,
            ));
        }
    }
    lemma_permuted(counts, listed, Seq::new(counts.len(), |i: int| order[counts.len() - 1 - i] as int));
    lemma_sorted_unique(listed, sorted(counts), leq);
}

/// A list read in the order of a permutation holds the same values as often.
proof fn lemma_permuted(values: Seq<u64>, listed: Seq<u64>, positions: Seq<int>)
    requires
        values.len() == listed.len() == positions.len(),
        positions.no_duplicates(),
        forall|i: int| 0 <= i < positions.len() ==> 0 <= #[trigger] positions[i] < values.len(),
        forall|i: int| 0 <= i < positions.len() ==> #[trigger] listed[i] == values[positions[i]],
    ensures
        values.to_multiset() == listed.to_multiset(),
    decreases values.len(),
{
    broadcast use group_to_multiset_ensures;

    if values.len() == 0 {
        assert(values =~= listed);
    } else {
        let n = values.len();
        let p = positions.last();
        let v2 = values.remove(p);
        let l2 = listed.drop_last();
        let p2 = Seq::new(
            (n - 1) as nat,
            |i: int|
                if positions[i] > p {
                    positions[i] - 1
                } else {
                    positions[i]
                },
        );
        assert(p2.no_duplicates()) by {
            assert forall|i: int, j: int| 0 <= i < p2.len() && 0 <= j < p2.len() && i != j implies p2[i]
                != p2[j] by {
                assert(positions[i] != positions[j]);
                assert(positions[i] != positions[n - 1]);
                assert(positions[j] != positions[n - 1]);
            }
        }
        assert forall|i: int| 0 <= i < p2.len() implies 0 <= #[trigger] p2[i] < v2.len() by {
            assert(positions[i] != positions[n - 1]);
            assert(0 <= positions[i] < n);
        }
        assert forall|i: int| 0 <= i < p2.len() implies #[trigger] l2[i] == v2[p2[i]] by {
            assert(positions[i] != positions[n - 1]);
            assert(0 <= positions[i] < n);
            assert(listed[i] == values[positions[i]]);
        }
        lemma_permuted(v2, l2, p2);
        to_multiset_remove(values, p);
        to_multiset_remove(listed, n - 1);
        assert(listed.remove(n - 1) =~= l2);
        assert(listed[n - 1] == values[p]);
        assert(values.to_multiset() =~= v2.to_multiset().insert(values[p]));
        assert(listed.to_multiset() =~= l2.to_multiset().insert(values[p]));
    }
}

/// The median and the largest value of a list.
pub fn median_and_peak(values: &Vec<u64>) -> (r: (Option<Median>, Option<u64>))
    ensures
        r.0 == median_of(values@),
        r.1 == largest_of(values@),
{
    if values.len() == 0 {
        return (None, None);
    }
    let order = rank(values);
    proof {
        lemma_ranking_sorts(order@, values@);
        let n = values@.len() as int;
        assert(sorted(values@)[(n - 1) / 2] == values@[order@[n - 1 - (n - 1) / 2] as int]);
        assert(sorted(values@)[n / 2] == values@[order@[n - 1 - n / 2] as int]);
        assert(sorted(values@)[n - 1] == values@[order@[0] as int]);
        assert(n - 1 - (n - 1) / 2 == n / 2);
        assert(n - 1 - n / 2 == (n - 1) / 2);
        assert(order@[n / 2] < values@.len());
        assert(order@[(n - 1) / 2] < values@.len());
        assert(order@[0] < values@.len());
    }
    let lower = values[order[values.len() / 2]];
    let upper = values[order[(values.len() - 1) / 2]];
    let peak = values[order[0]];
    (Some(Median { lower, upper }), Some(peak))
}

/// The quotient of whole numbers, rounded towards negative infinity.
pub fn floor_quotient(value: i64, width: i64) -> (r: i64)
    requires
        width > 0,
    ensures
        r == value as int / width as int,
{
    if value >= 0 {
        (value as u64 / width as u64) as i64
    } else {
        let below: u64 = (-(value + 1)) as u64;
        let steps: u64 = below / width as u64;
        proof {
            let w = width as int;
            let v = value as int;
            let q = below as int / w;
            vstd::arithmetic::div_mod::lemma_fundamental_div_mod(below as int, w);
            assert(0 <= q <= below) by (nonlinear_arith)
                requires
                    w > 0,
                    q == below as int / w,
                    below as int == w * q + below as int % w,
                    0 <= below as int % w,
                    below >= 0,
            ;
            let rem = w - 1 - below as int % w;
            assert(v == w * (-q - 1) + rem) by (nonlinear_arith)
                requires
                    below as int == -(v + 1),
                    below as int == w * q + below as int % w,
                    rem == w - 1 - below as int % w,
            ;
            vstd::arithmetic::div_mod::lemma_fundamental_div_mod_converse(v, w, -q - 1, rem);
        }
        -(steps as i64) - 1
    }
}

/// A map keyed by whole numbers. The keys stand in increasing order and none stands twice.
#[derive(Debug, Clone)]
pub struct NumberMap<V> {
    keys: Vec<i64>,
    values: Vec<V>,
}

pub open spec fn ascending(keys: Seq<i64>) -> bool {
    forall|i: int, j: int| 0 <= i < j < keys.len() ==> (#[trigger] keys[i]) < (#[trigger] keys[j])
}

impl<V> View for NumberMap<V> {
    type V = Map<i64, V>;

    open spec fn view(&self) -> Map<i64, V> {
        Map::new(
            |k: i64| self.key_seq().contains(k),
            |k: i64| self.value_seq()[self.key_seq().index_of(k)],
        )
    }
}

impl<V> NumberMap<V> {
    pub closed spec fn key_seq(&self) -> Seq<i64> {
        self.keys@
    }

    pub closed spec fn value_seq(&self) -> Seq<V> {
        self.values@
    }

    pub closed spec fn wf(&self) -> bool {
        &&& self.keys@.len() == self.values@.len()
        &&& ascending(self.keys@)
    }

    /// What the positions of the entries say about the map.
    pub proof fn lemma_positions(&self)
        requires
            self.wf(),
        ensures
            self.key_seq().len() == self.value_seq().len(),
            ascending(self.key_seq()),
            self.key_seq().no_duplicates(),
            forall|i: int| 0 <= i < self.key_seq().len() ==> self@.dom().contains(
                #[trigger] self.key_seq()[i],
            ) && self@[self.key_seq()[i]] == self.value_seq()[i],
            self@.dom() == self.key_seq().to_set(),
            self@.dom().finite(),
            self@.dom().len() == self.key_seq().len(),
    {
        self.key_seq().unique_seq_to_set();
        assert(self@.dom() =~= self.key_seq().to_set());
        assert forall|i: int| 0 <= i < self.key_seq().len() implies self@.dom().contains(
            #[trigger] self.key_seq()[i],
        ) && self@[self.key_seq()[i]] == self.value_seq()[i] by {
            let k = self.key_seq()[i];
            assert(self.key_seq().contains(k));
            let j = self.key_seq().index_of(k);
            assert(self.key_seq()[j] == k);
            assert(i == j);
        }
    }

    pub fn new() -> (r: Self)
        ensures
            r.wf(),
            r@ == Map::<i64, V>::empty(),
            r.key_seq().len() == 0,
    {
        let r = NumberMap { keys: Vec::new(), values: Vec::new() };
        assert(r@ =~= Map::<i64, V>::empty());
        r
    }

    pub fn len(&self) -> (r: usize)
        requires
            self.wf(),
        ensures
            r == self.key_seq().len(),
            r == self@.dom().len(),
            self@.dom().finite(),
    {
        proof {
            self.lemma_positions();
        }
        self.keys.len()
    }

    fn search(&self, key: i64) -> (r: (bool, usize))
        requires
            self.wf(),
        ensures
            r.1 <= self.key_seq().len(),
            r.0 ==> r.1 < self.key_seq().len() && self.key_seq()[r.1 as int] == key,
            r.0 == self@.dom().contains(key),
            !r.0 ==> forall|i: int| 0 <= i < r.1 ==> (#[trigger] self.key_seq()[i]) < key,
            !r.0 ==> forall|i: int|
                r.1 <= i < self.key_seq().len() ==> key < (#[trigger] self.key_seq()[i]),
    {
        let mut low: usize = 0;
        let mut high: usize = self.keys.len();
        while low < high
            invariant
                self.wf(),
                low <= high <= self.keys@.len(),
                forall|i: int| 0 <= i < low ==> (#[trigger] self.keys@[i]) < key,
                forall|i: int| high <= i < self.keys@.len() ==> key < (#[trigger] self.keys@[i]),
            decreases high - low,
        {
            let middle: usize = low + (high - low) / 2;
            let found = self.keys[middle];
            if found == key {
                assert(self.key_seq().contains(key));
                return (true, middle);
            }
            if found < key {
                low = middle + 1;
            } else {
                high = middle;
            }
        }
        proof {
            if self.key_seq().contains(key) {
                let i = self.key_seq().index_of(key);
                assert(self.keys@[i] == key);
            }
        }
        (false, low)
    }

    pub fn contains_key(&self, key: i64) -> (r: bool)
        requires
            self.wf(),
        ensures
            r == self@.dom().contains(key),
    {
        self.search(key).0
    }

    pub fn get(&self, key: i64) -> (r: Option<&V>)
        requires
            self.wf(),
        ensures
            r is Some == self@.dom().contains(key),
            r matches Some(v) ==> *v == self@[key],
    {
        proof {
            self.lemma_positions();
        }
        let found = self.search(key);
        if found.0 {
            Some(&self.values[found.1])
        } else {
            None
        }
    }

    /// Sets the value of a key, in the place of the one it had.
    pub fn insert(&mut self, key: i64, value: V)
        requires
            old(self).wf(),
        ensures
            final(self).wf(),
            final(self)@ == old(self)@.insert(key, value),
    {
        let ghost before = *self;
        proof {
            self.lemma_positions();
        }
        let found = self.search(key);
        let ghost at = found.1 as int;
        if found.0 {
            self.values.set(found.1, value);
            proof {
                assert(self.key_seq() == before.key_seq());
                self.lemma_positions();
                assert forall|k: i64| #[trigger] self@.dom().contains(k) implies self@[k]
                    == before@.insert(key, value)[k] by {
                    let i = self.key_seq().index_of(k);
                    assert(self.key_seq()[i] == k);
                    assert(before.key_seq()[i] == k);
                }
                assert(self@ =~= before@.insert(key, value));
            }
        } else {
            self.keys.insert(found.1, key);
            self.values.insert(found.1, value);
            proof {
                let ks = self.key_seq();
                assert(ks =~= before.key_seq().insert(at, key));
                assert forall|i: int, j: int| 0 <= i < j < ks.len() implies (#[trigger] ks[i])
                    < (#[trigger] ks[j]) by {
                    if i < at && j < at {
                        assert(ks[i] == before.key_seq()[i] && ks[j] == before.key_seq()[j]);
                    } else if i < at && j > at {
                        assert(ks[i] == before.key_seq()[i] && ks[j] == before.key_seq()[j - 1]);
                    } else if i > at {
                        assert(ks[i] == before.key_seq()[i - 1] && ks[j] == before.key_seq()[j
                            - 1]);
                    } else if i == at {
                        assert(ks[j] == before.key_seq()[j - 1]);
                    } else {
                        assert(ks[i] == before.key_seq()[i]);
                    }
                }
                self.lemma_positions();
                assert forall|k: i64| self@.dom().contains(k) == before@.insert(
                    key,
                    value,
                ).dom().contains(k) by {
                    if before@.dom().contains(k) {
                        let i = before.key_seq().index_of(k);
                        assert(before.key_seq()[i] == k);
                        if i < at {
                            assert(ks[i] == k);
                        } else {
                            assert(ks[i + 1] == k);
                        }
                    }
                    if self@.dom().contains(k) {
                        let i = ks.index_of(k);
                        assert(ks[i] == k);
                        if i < at {
                            assert(before.key_seq()[i] == k);
                        } else if i > at {
                            assert(before.key_seq()[i - 1] == k);
                        }
                    }
                    assert(ks[at] == key);
                }
                assert forall|k: i64| #[trigger] self@.dom().contains(k) implies self@[k]
                    == before@.insert(key, value)[k] by {
                    let i = ks.index_of(k);
                    assert(ks[i] == k);
                    assert(self@[ks[i]] == self.value_seq()[i]);
                    assert(ks[at] == key);
                    if i < at {
                        assert(before.key_seq()[i] == k);
                        assert(before@[before.key_seq()[i]] == before.value_seq()[i]);
                        assert(k != key);
                    } else if i > at {
                        assert(before.key_seq()[i - 1] == k);
                        assert(before@[before.key_seq()[i - 1]] == before.value_seq()[i - 1]);
                        assert(k != key);
                    }
                }
                assert(self@ =~= before@.insert(key, value));
            }
        }
    }

    pub fn key_at(&self, i: usize) -> (r: i64)
        requires
            self.wf(),
            i < self.key_seq().len(),
        ensures
            r == self.key_seq()[i as int],
            self@.dom().contains(r),
    {
        proof {
            self.lemma_positions();
        }
        self.keys[i]
    }

    pub fn value_at(&self, i: usize) -> (r: &V)
        requires
            self.wf(),
            i < self.key_seq().len(),
        ensures
            *r == self.value_seq()[i as int],
            *r == self@[self.key_seq()[i as int]],
    {
        proof {
            self.lemma_positions();
        }
        &self.values[i]
    }
}

/// The keys of a finite set of whole numbers in increasing order.
pub open spec fn ordered_keys(members: Set<i64>) -> Seq<i64> {
    choose|list: Seq<i64>| ascending(list) && list.to_set() == members
}

/// Two increasing lists with the same members are equal.
pub proof fn ascending_list_is_unique(a: Seq<i64>, b: Seq<i64>)
    requires
        ascending(a),
        ascending(b),
        a.to_set() == b.to_set(),
    ensures
        a == b,
{
    assert(a.no_duplicates());
    assert(b.no_duplicates());
    a.unique_seq_to_set();
    b.unique_seq_to_set();
    lemma_ascending_equal_up_to(a, b, a.len() as int);
    assert(a =~= b);
}

/// A finite set of whole numbers is listed by its ordered keys.
pub proof fn ordered_keys_lists_the_members(members: Set<i64>)
    requires
        members.finite(),
    ensures
        ascending(ordered_keys(members)),
        ordered_keys(members).to_set() == members,
{
    let leq = |a: i64, b: i64| a <= b;
    let list = crate::permutation::lemma_sorted_listing(members, leq);
    assert(ascending(list)) by {
        assert forall|i: int, j: int| 0 <= i < j < list.len() implies (#[trigger] list[i]) < (
        #[trigger] list[j]) by {
            assert(leq(list[i], list[j]));
        }
    }
    assert(ascending(list) && list.to_set() == members);
}

proof fn lemma_ascending_equal_up_to(a: Seq<i64>, b: Seq<i64>, n: int)
    requires
        ascending(a),
        ascending(b),
        a.to_set() == b.to_set(),
        a.len() == b.len(),
        0 <= n <= a.len(),
    ensures
        forall|i: int| 0 <= i < n ==> a[i] == b[i],
    decreases n,
{
    if n > 0 {
        lemma_ascending_equal_up_to(a, b, n - 1);
        let i = n - 1;
        if a[i] != b[i] {
            assert(a.to_set().contains(a[i]));
            assert(b.to_set().contains(b[i]));
            let j = b.index_of(a[i]);
            let k = a.index_of(b[i]);
            assert(b[j] == a[i]);
            assert(a[k] == b[i]);
            if j < i {
                assert(a[j] == b[j]);
            }
            if k < i {
                assert(a[k] == b[k]);
            }
        }
    }
}

impl<V> NumberMap<V> {
    /// The keys are listed in increasing order, and the values in the order of their keys.
    pub proof fn lemma_order(&self)
        requires
            self.wf(),
        ensures
            self.key_seq() == ordered_keys(self@.dom()),
            self.value_seq() == ordered_keys(self@.dom()).map_values(|k: i64| self@[k]),
    {
        self.lemma_positions();
        ascending_list_is_unique(self.key_seq(), ordered_keys(self@.dom()));
        assert(self.value_seq() =~= self.key_seq().map_values(|k: i64| self@[k]));
    }
}

/// The distance between whole numbers that a double-precision number holds, at `n`: the numbers
/// below 2^53 are all held, and the distance doubles at each power of two from there on.
pub open spec fn double_step(n: nat) -> nat
    decreases n,
{
    if n < 0x20_0000_0000_0000 {
        1
    } else {
        2 * double_step(n / 2)
    }
}

/// A whole number as a double-precision number: the nearest that is held, and of two equally
/// near ones the even multiple of their distance.
pub open spec fn as_double(n: nat) -> nat {
    let step = double_step(n);
    let rest = n % step;
    if 2 * rest < step || (2 * rest == step && n / step % 2 == 0) {
        (n - rest) as nat
    } else {
        (n - rest + step) as nat
    }
}

/// Whole numbers below 2^53 are held as they are, and no other becomes one of them.
pub proof fn small_numbers_are_exact(n: nat)
    ensures
        n < 0x20_0000_0000_0000 ==> as_double(n) == n,
        n >= 0x20_0000_0000_0000 ==> as_double(n) >= 0x20_0000_0000_0000,
{
    if n >= 0x20_0000_0000_0000 {
        let step = double_step(n);
        lemma_double_step(n);
        lemma_double_step(n / 2);
        vstd::arithmetic::div_mod::lemma_fundamental_div_mod(n as int, step as int);
        vstd::arithmetic::div_mod::lemma_div_is_ordered(
            0x10_0000_0000_0000 * step as int,
            n as int,
            step as int,
        );
        vstd::arithmetic::div_mod::lemma_div_multiples_vanish(0x10_0000_0000_0000, step as int);
        assert(step * (n / step) >= step * 0x10_0000_0000_0000) by (nonlinear_arith)
            requires
                n / step >= 0x10_0000_0000_0000,
                step >= 1,
        ;
    }
}

proof fn lemma_double_step(n: nat)
    ensures
        double_step(n) >= 1,
        n >= 0x10_0000_0000_0000 ==> 0x10_0000_0000_0000 * double_step(n) <= n,
    decreases n,
{
    if n >= 0x20_0000_0000_0000 {
        lemma_double_step(n / 2);
    }
}

pub(crate) fn to_double(n: u128) -> (r: u128)
    requires
        n < 0x1_0000_0000_0000_0000_0000_0000_0000,
    ensures
        r == as_double(n as nat),
        r <= 2 * n,
{
    let mut step: u128 = 1;
    let mut rest: u128 = n;
    while rest >= 0x20_0000_0000_0000
        invariant
            rest <= n,
            n < 0x1_0000_0000_0000_0000_0000_0000_0000,
            step >= 1,
            rest * step <= n,
            double_step(n as nat) == step * double_step(rest as nat),
        decreases rest,
    {
        proof {
            assert(rest / 2 * (2 * step) <= rest * step) by (nonlinear_arith)
                requires
                    rest / 2 * 2 <= rest,
                    step >= 1,
            ;
            assert(step * (2 * double_step((rest / 2) as nat)) == (2 * step) * double_step(
                (rest / 2) as nat,
            )) by (nonlinear_arith);
            assert(2 * step <= rest * step) by (nonlinear_arith)
                requires
                    rest >= 2,
                    step >= 1,
            ;
        }
        rest = rest / 2;
        step = 2 * step;
    }
    proof {
        lemma_double_step(n as nat);
        assert(step * double_step(rest as nat) == step) by (nonlinear_arith)
            requires
                double_step(rest as nat) == 1,
        ;
        vstd::arithmetic::div_mod::lemma_fundamental_div_mod(n as int, step as int);
        vstd::arithmetic::div_mod::lemma_mod_bound(n as int, step as int);
        vstd::arithmetic::mul::lemma_mul_nonnegative(step as int, (n / step) as int);
    }
    let over = n % step;
    if 2 * over < step || (2 * over == step && n / step % 2 == 0) {
        n - over
    } else {
        n - over + step
    }
}

/// A peak set against a median.
#[derive(Clone, Copy, Debug, PartialEq, Eq, Structural)]
pub struct MedianRatio {
    pub peak: u64,
    pub median: Median,
}

} // verus!
