//! Lists of the same members in different orders.

use vstd::prelude::*;
use vstd::relations::*;
use vstd::seq_lib::*;

verus! {

/// Two lists that name the same members once each hold the same values.
pub proof fn lemma_same_members<A>(a: Seq<A>, b: Seq<A>)
    requires
        a.no_duplicates(),
        b.no_duplicates(),
        a.to_set() == b.to_set(),
    ensures
        a.to_multiset() == b.to_multiset(),
{
    broadcast use group_to_multiset_ensures;

    a.lemma_multiset_has_no_duplicates();
    b.lemma_multiset_has_no_duplicates();
    assert forall|x: A| a.to_multiset().count(x) == b.to_multiset().count(x) by {
        assert(a.to_set().contains(x) == a.contains(x));
        assert(b.to_set().contains(x) == b.contains(x));
        assert(a.to_multiset().contains(x) == a.contains(x));
        assert(b.to_multiset().contains(x) == b.contains(x));
    }
    assert(a.to_multiset() =~= b.to_multiset());
}

/// What a list holds without the value at a place.
proof fn lemma_without<A>(list: Seq<A>, at: int)
    requires
        0 <= at < list.len(),
    ensures
        list.to_multiset() == list.remove(at).to_multiset().insert(list[at]),
{
    broadcast use group_to_multiset_ensures;

    to_multiset_remove(list, at);
    assert(list.contains(list[at]));
    assert(list.to_multiset() =~= list.remove(at).to_multiset().insert(list[at]));
}

/// Lists that hold the same values do so after each value was changed in the same way.
pub proof fn lemma_map_permuted<A, B>(a: Seq<A>, b: Seq<A>, change: spec_fn(A) -> B)
    requires
        a.to_multiset() == b.to_multiset(),
    ensures
        a.map_values(change).to_multiset() == b.map_values(change).to_multiset(),
    decreases a.len(),
{
    broadcast use group_to_multiset_ensures;

    assert(a.len() == a.to_multiset().len());
    assert(b.len() == b.to_multiset().len());
    if a.len() == 0 {
        assert(a.map_values(change) =~= b.map_values(change));
    } else {
        let last = a.len() - 1;
        let x = a.last();
        assert(a.contains(a[last]));
        assert(b.to_multiset().count(x) > 0);
        assert(b.contains(x));
        let at = b.index_of(x);
        assert(b[at] == x);
        let (p, q) = (a.remove(last), b.remove(at));
        to_multiset_remove(a, last);
        to_multiset_remove(b, at);
        lemma_map_permuted(p, q, change);
        let (u, v) = (a.map_values(change), b.map_values(change));
        assert(u.remove(last) =~= p.map_values(change));
        assert(v.remove(at) =~= q.map_values(change));
        lemma_without(u, last);
        lemma_without(v, at);
    }
}

/// The members of a finite set, each once, in a total order.
pub proof fn lemma_sorted_listing<A>(members: Set<A>, leq: spec_fn(A, A) -> bool) -> (list: Seq<A>)
    requires
        members.finite(),
        total_ordering(leq),
    ensures
        list.no_duplicates(),
        list.to_set() == members,
        sorted_by(list, leq),
{
    broadcast use group_to_multiset_ensures;

    let plain = lemma_listing(members);
    let list = plain.sort_by(leq);
    plain.lemma_sort_by_ensures(leq);
    assert(list.no_duplicates()) by {
        plain.lemma_multiset_has_no_duplicates();
        list.lemma_multiset_has_no_duplicates_conv();
    }
    assert(list.to_set() =~= members) by {
        assert forall|x: A| list.to_set().contains(x) == members.contains(x) by {
            assert(list.contains(x) == (list.to_multiset().count(x) > 0));
            assert(plain.contains(x) == (plain.to_multiset().count(x) > 0));
            assert(plain.to_set().contains(x) == members.contains(x));
        }
    }
    list
}

proof fn lemma_listing<A>(members: Set<A>) -> (list: Seq<A>)
    requires
        members.finite(),
    ensures
        list.no_duplicates(),
        list.to_set() == members,
    decreases members.len(),
{
    if members.len() == 0 {
        let list = Seq::<A>::empty();
        assert(list.to_set() =~= members);
        list
    } else {
        let x = members.choose();
        let rest = lemma_listing(members.remove(x));
        assert(!rest.to_set().contains(x));
        let list = rest.push(x);
        assert(list.to_set() =~= members) by {
            assert forall|y: A| list.to_set().contains(y) == members.contains(y) by {
                if y == x {
                    assert(list[list.len() - 1] == x);
                }
                if rest.to_set().contains(y) {
                    let i = rest.index_of(y);
                    assert(list[i] == y);
                }
                if members.contains(y) && y != x {
                    assert(rest.to_set().contains(y));
                }
                if list.contains(y) && y != x {
                    let i = list.index_of(y);
                    assert(rest[i] == y);
                    assert(rest.to_set().contains(y));
                }
            }
        }
        list
    }
}

} // verus!
