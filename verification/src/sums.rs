//! Sums of counts over the keys of a map.

use vstd::prelude::*;

verus! {

/// The sum of the counts of a map with finitely many keys.
pub open spec fn map_sum<K>(m: Map<K, nat>) -> nat
    decreases m.dom().len(),
    when m.dom().finite()
{
    if m.dom().len() == 0 {
        0
    } else {
        let k = m.dom().choose();
        m[k] + map_sum(m.remove(k))
    }
}

/// The sum can be taken apart at any key.
pub proof fn lemma_sum_remove<K>(m: Map<K, nat>, k: K)
    requires
        m.dom().finite(),
        m.dom().contains(k),
    ensures
        map_sum(m) == m[k] + map_sum(m.remove(k)),
    decreases m.dom().len(),
{
    let c = m.dom().choose();
    assert(m.dom().len() > 0) by {
        if m.dom().len() == 0 {
            assert(m.dom() =~= Set::<K>::empty());
        }
    }
    if c != k {
        let rest = m.remove(c);
        assert(rest.dom() =~= m.dom().remove(c));
        assert(rest.dom().contains(k));
        lemma_sum_remove(rest, k);
        assert(rest.remove(k) =~= m.remove(k).remove(c));
        let other = m.remove(k);
        assert(other.dom() =~= m.dom().remove(k));
        assert(other.dom().contains(c));
        lemma_sum_remove(other, c);
    }
}

/// What setting the count of a key does to the sum.
pub proof fn lemma_sum_insert<K>(m: Map<K, nat>, k: K, v: nat)
    requires
        m.dom().finite(),
    ensures
        m.insert(k, v).dom().finite(),
        map_sum(m.insert(k, v)) + (if m.dom().contains(k) {
            m[k]
        } else {
            0
        }) == map_sum(m) + v,
{
    let after = m.insert(k, v);
    assert(after.dom() =~= m.dom().insert(k));
    lemma_sum_remove(after, k);
    if m.dom().contains(k) {
        lemma_sum_remove(m, k);
        assert(after.remove(k) =~= m.remove(k));
    } else {
        assert(after.remove(k) =~= m);
    }
}

pub proof fn lemma_sum_empty<K>()
    ensures
        map_sum(Map::<K, nat>::empty()) == 0,
{
}

/// The sum of the counts of a list of keys.
pub open spec fn list_sum<K>(list: Seq<K>, m: Map<K, nat>) -> nat
    decreases list.len(),
{
    if list.len() == 0 {
        0
    } else {
        list_sum(list.drop_last(), m) + m[list.last()]
    }
}

/// Distinct keys of a map sum to no more than the map does.
pub proof fn lemma_list_sum_bounded<K>(list: Seq<K>, m: Map<K, nat>)
    requires
        m.dom().finite(),
        list.no_duplicates(),
        forall|i: int| 0 <= i < list.len() ==> m.dom().contains(#[trigger] list[i]),
    ensures
        list_sum(list, m) <= map_sum(m),
    decreases list.len(),
{
    if list.len() > 0 {
        let k = list.last();
        let front = list.drop_last();
        let rest = m.remove(k);
        assert(list[list.len() - 1] == k);
        assert(rest.dom() =~= m.dom().remove(k));
        assert forall|i: int| 0 <= i < front.len() implies rest.dom().contains(#[trigger] front[i]) by {
            assert(list[i] == front[i]);
            assert(list[i] != list[list.len() - 1]);
        }
        lemma_list_sum_bounded(front, rest);
        lemma_list_sum_same(front, m, rest);
        lemma_sum_remove(m, k);
    }
}

/// The sum of a list depends on the counts of its keys only.
pub proof fn lemma_list_sum_same<K>(
    list: Seq<K>,
    a: Map<K, nat>,
    b: Map<K, nat>,
)
    requires
        forall|i: int| 0 <= i < list.len() ==> a[#[trigger] list[i]] == b[list[i]],
    ensures
        list_sum(list, a) == list_sum(list, b),
    decreases list.len(),
{
    if list.len() > 0 {
        let front = list.drop_last();
        assert forall|i: int| 0 <= i < front.len() implies a[#[trigger] front[i]] == b[front[i]] by {
            assert(list[i] == front[i]);
        }
        lemma_list_sum_same(front, a, b);
        assert(list[list.len() - 1] == list.last());
    }
}

/// Smaller counts have a smaller sum.
pub proof fn lemma_list_sum_monotone<K>(
    list: Seq<K>,
    a: Map<K, nat>,
    b: Map<K, nat>,
)
    requires
        forall|i: int| 0 <= i < list.len() ==> a[#[trigger] list[i]] <= b[list[i]],
    ensures
        list_sum(list, a) <= list_sum(list, b),
    decreases list.len(),
{
    if list.len() > 0 {
        let front = list.drop_last();
        assert forall|i: int| 0 <= i < front.len() implies a[#[trigger] front[i]] <= b[front[i]] by {
            assert(list[i] == front[i]);
        }
        lemma_list_sum_monotone(front, a, b);
        assert(list[list.len() - 1] == list.last());
    }
}

/// A longer list has a larger sum.
pub proof fn lemma_list_sum_grows<K>(list: Seq<K>, m: Map<K, nat>, n: int)
    requires
        0 <= n <= list.len(),
    ensures
        list_sum(list.take(n), m) <= list_sum(list, m),
    decreases list.len() - n,
{
    if n == list.len() {
        assert(list.take(n) =~= list);
    } else {
        lemma_list_sum_grows(list, m, n + 1);
        assert(list.take(n + 1).drop_last() =~= list.take(n));
    }
}

/// The keys of a map, each once, sum to what the map does.
pub proof fn lemma_list_sum_total<K>(list: Seq<K>, m: Map<K, nat>)
    requires
        m.dom().finite(),
        list.no_duplicates(),
        list.to_set() == m.dom(),
    ensures
        list_sum(list, m) == map_sum(m),
    decreases list.len(),
{
    if list.len() == 0 {
        assert(m.dom() =~= Set::<K>::empty());
    } else {
        let k = list.last();
        let front = list.drop_last();
        let rest = m.remove(k);
        assert(list[list.len() - 1] == k);
        assert(list.to_set().contains(k));
        assert(rest.dom() =~= m.dom().remove(k));
        assert(front.to_set() =~= rest.dom()) by {
            assert forall|x: K| front.to_set().contains(x) == rest.dom().contains(x) by {
                if front.to_set().contains(x) {
                    let i = front.index_of(x);
                    assert(list[i] == x);
                    assert(list.to_set().contains(x));
                    assert(list[i] != list[list.len() - 1]);
                }
                if rest.dom().contains(x) {
                    assert(list.to_set().contains(x));
                    let i = list.index_of(x);
                    assert(list[i] == x);
                    assert(front[i] == x);
                }
            }
        }
        assert forall|i: int| 0 <= i < front.len() implies m[#[trigger] front[i]] == rest[front[i]] by {
            assert(front.to_set().contains(front[i]));
        }
        lemma_list_sum_total(front, rest);
        lemma_list_sum_same(front, m, rest);
        lemma_sum_remove(m, k);
    }
}

} // verus!
