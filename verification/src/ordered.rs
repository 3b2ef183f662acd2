//! A map from strings to values that keeps its entries in the order on texts.

use crate::text::{
    compare_text, text_before, text_order_is_total, text_order_is_transitive, texts, TextOrder,
};
use vstd::prelude::*;

verus! {

/// A map keyed by strings. The keys stand in increasing order and none stands twice.
#[derive(Debug, Clone)]
pub struct TextMap<V> {
    keys: Vec<String>,
    values: Vec<V>,
}

/// The texts of the keys, in their order.
pub open spec fn increasing(keys: Seq<Seq<char>>) -> bool {
    forall|i: int, j: int|
        0 <= i < j < keys.len() ==> text_before(#[trigger] keys[i], #[trigger] keys[j])
}

impl<V> TextMap<V> {
    pub closed spec fn key_seq(&self) -> Seq<Seq<char>> {
        self.keys@.map_values(|k: String| k@)
    }

    pub closed spec fn value_seq(&self) -> Seq<V> {
        self.values@
    }

    pub closed spec fn wf(&self) -> bool {
        &&& self.keys@.len() == self.values@.len()
        &&& increasing(self.key_seq())
    }
}

impl<V> View for TextMap<V> {
    type V = Map<Seq<char>, V>;

    open spec fn view(&self) -> Map<Seq<char>, V> {
        Map::new(
            |k: Seq<char>| self.key_seq().contains(k),
            |k: Seq<char>| self.value_seq()[self.key_seq().index_of(k)],
        )
    }
}

/// Increasing keys are distinct.
pub proof fn lemma_increasing_distinct(keys: Seq<Seq<char>>)
    requires
        increasing(keys),
    ensures
        keys.no_duplicates(),
{
    assert forall|i: int, j: int| 0 <= i < keys.len() && 0 <= j < keys.len() && i != j implies keys[i]
        != keys[j] by {
        text_order_is_total(keys[i], keys[j]);
    }
}

impl<V> TextMap<V> {
    /// What the positions of the entries say about the map: every position holds an entry of
    /// the map, and the map has as many keys as there are positions.
    pub proof fn lemma_positions(&self)
        requires
            self.wf(),
        ensures
            self.key_seq().len() == self.value_seq().len(),
            increasing(self.key_seq()),
            self.key_seq().no_duplicates(),
            forall|i: int| 0 <= i < self.key_seq().len() ==> self@.dom().contains(
                #[trigger] self.key_seq()[i],
            ) && self@[self.key_seq()[i]] == self.value_seq()[i],
            self@.dom() == self.key_seq().to_set(),
            self@.dom().finite(),
            self@.dom().len() == self.key_seq().len(),
    {
        lemma_increasing_distinct(self.key_seq());
        self.key_seq().unique_seq_to_set();
        assert(self@.dom() =~= self.key_seq().to_set());
        assert forall|i: int| 0 <= i < self.key_seq().len() implies self@.dom().contains(
            #[trigger] self.key_seq()[i],
        ) && self@[self.key_seq()[i]] == self.value_seq()[i] by {
            let k = self.key_seq()[i];
            assert(self.key_seq().contains(k));
            let j = self.key_seq().index_of(k);
            assert(self.key_seq()[j] == k);
            assert(i == j);
        }
    }

    pub fn new() -> (r: Self)
        ensures
            r.wf(),
            r@ == Map::<Seq<char>, V>::empty(),
            r.key_seq().len() == 0,
    {
        let r = TextMap { keys: Vec::new(), values: Vec::new() };
        assert(r@ =~= Map::<Seq<char>, V>::empty());
        r
    }

    pub fn len(&self) -> (r: usize)
        requires
            self.wf(),
        ensures
            r == self.key_seq().len(),
            r == self@.dom().len(),
            self@.dom().finite(),
    {
        proof {
            self.lemma_positions();
        }
        self.keys.len()
    }

    pub fn is_empty(&self) -> (r: bool)
        requires
            self.wf(),
        ensures
            r == (self@ == Map::<Seq<char>, V>::empty()),
            r == (self.key_seq().len() == 0),
    {
        proof {
            self.lemma_positions();
            if self.keys@.len() == 0 {
                assert(self@ =~= Map::<Seq<char>, V>::empty());
            } else {
                assert(self@.dom().contains(self.key_seq()[0]));
            }
        }
        self.keys.len() == 0
    }

    /// Where `key` stands, or where it would have to be put.
    fn search(&self, key: &str) -> (r: (bool, usize))
        requires
            self.wf(),
        ensures
            r.1 <= self.key_seq().len(),
            r.0 ==> r.1 < self.key_seq().len() && self.key_seq()[r.1 as int] == key@,
            r.0 == self@.dom().contains(key@),
            !r.0 ==> forall|i: int| 0 <= i < r.1 ==> text_before(#[trigger] self.key_seq()[i], key@),
            !r.0 ==> forall|i: int|
                r.1 <= i < self.key_seq().len() ==> text_before(key@, #[trigger] self.key_seq()[i]),
    {
        let ghost ks = self.key_seq();
        let mut low: usize = 0;
        let mut high: usize = self.keys.len();
        while low < high
            invariant
                ks == self.key_seq(),
                increasing(ks),
                ks.len() == self.keys@.len(),
                low <= high <= ks.len(),
                forall|i: int| 0 <= i < low ==> text_before(#[trigger] ks[i], key@),
                forall|i: int| high <= i < ks.len() ==> text_before(key@, #[trigger] ks[i]),
            decreases high - low,
        {
            let middle: usize = low + (high - low) / 2;
            assert(ks[middle as int] == self.keys@[middle as int]@);
            match compare_text(self.keys[middle].as_str(), key) {
                TextOrder::Same => {
                    assert(ks.contains(key@));
                    return (true, middle);
                },
                TextOrder::Before => {
                    assert forall|i: int| 0 <= i < middle + 1 implies text_before(
                        #[trigger] ks[i],
                        key@,
                    ) by {
                        if i < middle {
                            text_order_is_transitive(ks[i], ks[middle as int], key@);
                        }
                    }
                    low = middle + 1;
                },
                TextOrder::After => {
                    assert forall|i: int| middle <= i < ks.len() implies text_before(
                        key@,
                        #[trigger] ks[i],
                    ) by {
                        if middle < i {
                            text_order_is_transitive(key@, ks[middle as int], ks[i]);
                        }
                    }
                    high = middle;
                },
            }
        }
        proof {
            if ks.contains(key@) {
                let i = ks.index_of(key@);
                assert(ks[i] == key@);
                text_order_is_total(key@, key@);
            }
        }
        (false, low)
    }

    pub fn contains_key(&self, key: &str) -> (r: bool)
        requires
            self.wf(),
        ensures
            r == self@.dom().contains(key@),
    {
        self.search(key).0
    }

    pub fn get(&self, key: &str) -> (r: Option<&V>)
        requires
            self.wf(),
        ensures
            r is Some == self@.dom().contains(key@),
            r matches Some(v) ==> *v == self@[key@],
    {
        proof {
            self.lemma_positions();
        }
        let found = self.search(key);
        if found.0 {
            Some(&self.values[found.1])
        } else {
            None
        }
    }

    /// Sets the value of a key, in the place of the one it had.
    pub fn insert(&mut self, key: String, value: V)
        requires
            old(self).wf(),
        ensures
            final(self).wf(),
            final(self)@ == old(self)@.insert(key@, value),
            final(self).key_seq().len() == old(self).key_seq().len() + if old(
                self,
            )@.dom().contains(key@) {
                0int
            } else {
                1int
            },
    {
        let ghost before = *self;
        proof {
            self.lemma_positions();
        }
        let found = self.search(key.as_str());
        let ghost at = found.1 as int;
        if found.0 {
            self.values.set(found.1, value);
            proof {
                assert(self.key_seq() == before.key_seq());
                self.lemma_positions();
                assert forall|k: Seq<char>| #[trigger] self@.dom().contains(k) implies self@[k]
                    == before@.insert(key@, value)[k] by {
                    let i = self.key_seq().index_of(k);
                    assert(self.key_seq()[i] == k);
                    assert(before.key_seq()[i] == k);
                }
                assert(self@ =~= before@.insert(key@, value));
            }
        } else {
            let ghost k0 = key@;
            self.keys.insert(found.1, key);
            self.values.insert(found.1, value);
            proof {
                let ks = self.key_seq();
                assert(ks =~= before.key_seq().insert(at, k0));
                assert forall|i: int, j: int| 0 <= i < j < ks.len() implies text_before(
                    #[trigger] ks[i],
                    #[trigger] ks[j],
                ) by {
                    if i < at && j < at {
                        assert(ks[i] == before.key_seq()[i] && ks[j] == before.key_seq()[j]);
                    } else if i < at && j > at {
                        assert(ks[i] == before.key_seq()[i] && ks[j] == before.key_seq()[j - 1]);
                    } else if i > at {
                        assert(ks[i] == before.key_seq()[i - 1] && ks[j] == before.key_seq()[j
                            - 1]);
                    } else if i == at {
                        assert(ks[j] == before.key_seq()[j - 1]);
                    } else {
                        assert(ks[i] == before.key_seq()[i]);
                    }
                }
                self.lemma_positions();
                assert forall|k: Seq<char>| self@.dom().contains(k) == before@.insert(
                    k0,
                    value,
                ).dom().contains(k) by {
                    if before@.dom().contains(k) {
                        let i = before.key_seq().index_of(k);
                        assert(before.key_seq()[i] == k);
                        if i < at {
                            assert(ks[i] == k);
                        } else {
                            assert(ks[i + 1] == k);
                        }
                    }
                    if self@.dom().contains(k) {
                        let i = ks.index_of(k);
                        assert(ks[i] == k);
                        if i < at {
                            assert(before.key_seq()[i] == k);
                        } else if i > at {
                            assert(before.key_seq()[i - 1] == k);
                        }
                    }
                    assert(ks[at] == k0);
                }
                assert forall|k: Seq<char>| #[trigger] self@.dom().contains(k) implies self@[k]
                    == before@.insert(k0, value)[k] by {
                    let i = ks.index_of(k);
                    assert(ks[i] == k);
                    assert(self@[ks[i]] == self.value_seq()[i]);
                    assert(ks[at] == k0);
                    if i < at {
                        assert(before.key_seq()[i] == k);
                        assert(before@[before.key_seq()[i]] == before.value_seq()[i]);
                        assert(k != k0);
                    } else if i > at {
                        assert(before.key_seq()[i - 1] == k);
                        assert(before@[before.key_seq()[i - 1]] == before.value_seq()[i - 1]);
                        assert(k != k0);
                    }
                }
                assert(self@ =~= before@.insert(k0, value));
            }
        }
    }

    /// The value of a key, to be changed in its place.
    pub fn get_mut(&mut self, key: &str) -> (r: Option<&mut V>)
        requires
            old(self).wf(),
        ensures
            r is Some == old(self)@.dom().contains(key@),
            r matches Some(v) ==> {
                &&& *v == old(self)@[key@]
                &&& final(self)@ == old(self)@.insert(key@, *final(v))
                &&& final(self).wf()
                &&& final(self).key_seq() == old(self).key_seq()
            },
            r is None ==> *final(self) == *old(self),
    {
        proof {
            self.lemma_positions();
        }
        let found = self.search(key);
        if found.0 {
            let r = &mut self.values[found.1];
            Some(r)
        } else {
            None
        }
    }

    pub fn key_at(&self, i: usize) -> (r: &String)
        requires
            self.wf(),
            i < self.key_seq().len(),
        ensures
            r@ == self.key_seq()[i as int],
            self@.dom().contains(r@),
    {
        proof {
            self.lemma_positions();
        }
        &self.keys[i]
    }

    pub fn value_at(&self, i: usize) -> (r: &V)
        requires
            self.wf(),
            i < self.key_seq().len(),
        ensures
            *r == self.value_seq()[i as int],
            *r == self@[self.key_seq()[i as int]],
    {
        proof {
            self.lemma_positions();
        }
        &self.values[i]
    }
}

/// A set of strings that keeps them in the order on texts.
#[derive(Debug, Clone)]
pub struct TextSet {
    members: TextMap<()>,
}

impl View for TextSet {
    type V = Set<Seq<char>>;

    closed spec fn view(&self) -> Set<Seq<char>> {
        self.members@.dom()
    }
}

impl TextSet {
    pub closed spec fn wf(&self) -> bool {
        self.members.wf()
    }

    /// The members, in their order.
    pub closed spec fn member_seq(&self) -> Seq<Seq<char>> {
        self.members.key_seq()
    }

    pub proof fn lemma_members(&self)
        requires
            self.wf(),
        ensures
            increasing(self.member_seq()),
            self.member_seq().no_duplicates(),
            self@ == self.member_seq().to_set(),
            self@.finite(),
            self@.len() == self.member_seq().len(),
    {
        self.members.lemma_positions();
    }

    pub fn new() -> (r: Self)
        ensures
            r.wf(),
            r@ == Set::<Seq<char>>::empty(),
    {
        let r = TextSet { members: TextMap::new() };
        assert(r@ =~= Set::<Seq<char>>::empty());
        r
    }

    pub fn len(&self) -> (r: usize)
        requires
            self.wf(),
        ensures
            r == self@.len(),
            r == self.member_seq().len(),
            self@.finite(),
    {
        self.members.len()
    }

    pub fn contains(&self, value: &str) -> (r: bool)
        requires
            self.wf(),
        ensures
            r == self@.contains(value@),
    {
        self.members.contains_key(value)
    }

    pub fn insert(&mut self, value: String)
        requires
            old(self).wf(),
        ensures
            final(self).wf(),
            final(self)@ == old(self)@.insert(value@),
    {
        let ghost before = self@;
        let ghost v = value@;
        self.members.insert(value, ());
        assert(self@ =~= before.insert(v));
    }

    pub fn member_at(&self, i: usize) -> (r: &String)
        requires
            self.wf(),
            i < self.member_seq().len(),
        ensures
            r@ == self.member_seq()[i as int],
            self@.contains(r@),
    {
        self.members.key_at(i)
    }

    /// The members as a list, in their order.
    pub fn to_list(&self) -> (r: Vec<String>)
        requires
            self.wf(),
        ensures
            texts(r@) == self.member_seq(),
    {
        let mut r: Vec<String> = Vec::new();
        let count = self.len();
        let mut i: usize = 0;
        while i < count
            invariant
                self.wf(),
                count == self.member_seq().len(),
                i <= count,
                texts(r@) == self.member_seq().take(i as int),
            decreases count - i,
        {
            let member = self.member_at(i).clone();
            proof {
                assert(texts(r@.push(member)) =~= texts(r@).push(member@));
                assert(self.member_seq().take(i + 1) =~= self.member_seq().take(i as int).push(
                    self.member_seq()[i as int],
                ));
            }
            r.push(member);
            i = i + 1;
        }
        assert(self.member_seq().take(i as int) =~= self.member_seq());
        r
    }
}

/// The order decides how a set is listed: two increasing lists with the same members are equal.
pub proof fn increasing_list_is_unique(a: Seq<Seq<char>>, b: Seq<Seq<char>>)
    requires
        increasing(a),
        increasing(b),
        a.to_set() == b.to_set(),
    ensures
        a == b,
{
    lemma_increasing_distinct(a);
    lemma_increasing_distinct(b);
    a.unique_seq_to_set();
    b.unique_seq_to_set();
    lemma_increasing_equal_up_to(a, b, a.len() as int);
    assert(a =~= b);
}

proof fn lemma_increasing_equal_up_to(a: Seq<Seq<char>>, b: Seq<Seq<char>>, n: int)
    requires
        increasing(a),
        increasing(b),
        a.to_set() == b.to_set(),
        a.len() == b.len(),
        0 <= n <= a.len(),
    ensures
        forall|i: int| 0 <= i < n ==> a[i] == b[i],
    decreases n,
{
    if n > 0 {
        lemma_increasing_equal_up_to(a, b, n - 1);
        let i = n - 1;
        if a[i] != b[i] {
            assert(a.to_set().contains(a[i]));
            assert(b.to_set().contains(b[i]));
            assert(b.contains(a[i]));
            assert(a.contains(b[i]));
            let j = b.index_of(a[i]);
            let k = a.index_of(b[i]);
            assert(b[j] == a[i]);
            assert(a[k] == b[i]);
            text_order_is_total(a[i], a[i]);
            text_order_is_total(b[i], b[i]);
            if j < i {
                assert(a[j] == b[j]);
                assert(text_before(a[j], a[i]));
            }
            if k < i {
                assert(a[k] == b[k]);
                assert(text_before(b[k], b[i]));
            }
            assert(text_before(b[i], b[j]));
            assert(text_before(a[i], a[k]));
            text_order_is_total(a[i], b[i]);
        }
    }
}

/// Whether no key comes before an earlier one.
pub open spec fn nondecreasing(keys: Seq<Seq<char>>) -> bool {
    forall|i: int, j: int|
        0 <= i < j < keys.len() ==> !text_before(#[trigger] keys[j], #[trigger] keys[i])
}

/// The first place of a list whose key comes after the given one.
pub open spec fn place_after(keys: Seq<Seq<char>>, key: Seq<char>) -> int
    decreases keys.len(),
{
    if keys.len() == 0 || text_before(key, keys[0]) {
        0
    } else {
        1 + place_after(keys.skip(1), key)
    }
}

/// The place after a key parts an ordered list.
pub proof fn lemma_place_after(keys: Seq<Seq<char>>, key: Seq<char>)
    requires
        nondecreasing(keys),
    ensures
        0 <= place_after(keys, key) <= keys.len(),
        forall|i: int| 0 <= i < place_after(keys, key) ==> !text_before(key, #[trigger] keys[i]),
        forall|i: int|
            place_after(keys, key) <= i < keys.len() ==> text_before(key, #[trigger] keys[i]),
        nondecreasing(keys.insert(place_after(keys, key), key)),
    decreases keys.len(),
{
    let at = place_after(keys, key);
    if keys.len() > 0 {
        let rest = keys.skip(1);
        assert forall|i: int, j: int| 0 <= i < j < rest.len() implies !text_before(
            #[trigger] rest[j],
            #[trigger] rest[i],
        ) by {
            assert(!text_before(keys[j + 1], keys[i + 1]));
        }
        lemma_place_after(rest, key);
        if text_before(key, keys[0]) {
            assert forall|i: int| 0 <= i < keys.len() implies text_before(
                key,
                #[trigger] keys[i],
            ) by {
                if i > 0 {
                    assert(!text_before(keys[i], keys[0]));
                    text_order_is_total(keys[0], keys[i]);
                    if text_before(keys[0], keys[i]) {
                        text_order_is_transitive(key, keys[0], keys[i]);
                    }
                }
            }
        } else {
            assert forall|i: int| 0 <= i < at implies !text_before(key, #[trigger] keys[i]) by {
                if i > 0 {
                    assert(rest[i - 1] == keys[i]);
                }
            }
            assert forall|i: int| at <= i < keys.len() implies text_before(
                key,
                #[trigger] keys[i],
            ) by {
                assert(rest[i - 1] == keys[i]);
            }
        }
    }
    let after = keys.insert(at, key);
    assert forall|i: int, j: int| 0 <= i < j < after.len() implies !text_before(
        #[trigger] after[j],
        #[trigger] after[i],
    ) by {
        if i < at && j == at {
            assert(!text_before(key, keys[i]));
        } else if i == at {
            assert(text_before(key, keys[j - 1]));
            text_order_is_total(key, keys[j - 1]);
        } else if i < at && j > at {
            assert(!text_before(keys[j - 1], keys[i]));
        } else if i > at {
            assert(!text_before(keys[j - 1], keys[i - 1]));
        } else {
            assert(!text_before(keys[j], keys[i]));
        }
    }
}

pub fn find_place_after(keys: &Vec<String>, key: &str) -> (r: usize)
    requires
        nondecreasing(texts(keys@)),
    ensures
        r == place_after(texts(keys@), key@),
        r <= keys@.len(),
{
    let ghost list = texts(keys@);
    proof {
        lemma_place_after(list, key@);
    }
    let mut low: usize = 0;
    let mut high: usize = keys.len();
    while low < high
        invariant
            list == texts(keys@),
            low <= place_after(list, key@) <= high <= keys@.len(),
            forall|i: int| 0 <= i < place_after(list, key@) ==> !text_before(key@, #[trigger] list[i]),
            forall|i: int|
                place_after(list, key@) <= i < list.len() ==> text_before(key@, #[trigger] list[i]),
        decreases high - low,
    {
        let middle: usize = low + (high - low) / 2;
        assert(list[middle as int] == keys@[middle as int]@);
        match compare_text(key, keys[middle].as_str()) {
            TextOrder::Before => {
                high = middle;
            },
            _ => {
                low = middle + 1;
            },
        }
    }
    low
}

/// The members of a finite set in the order on texts.
pub open spec fn ordered_texts(members: Set<Seq<char>>) -> Seq<Seq<char>> {
    choose|list: Seq<Seq<char>>| increasing(list) && list.to_set() == members
}

/// The members of a finite set can be listed in increasing order, each once.
pub proof fn ordered_texts_lists_the_members(members: Set<Seq<char>>)
    requires
        members.finite(),
    ensures
        increasing(ordered_texts(members)),
        ordered_texts(members).to_set() == members,
        ordered_texts(members).len() == members.len(),
{
    let list = lemma_listing(members);
    assert(increasing(list) && list.to_set() == members);
    let chosen = ordered_texts(members);
    assert(chosen.no_duplicates()) by {
        assert forall|i: int, j: int| 0 <= i < chosen.len() && 0 <= j < chosen.len() && i
            != j implies chosen[i] != chosen[j] by {
            text_order_is_total(chosen[i], chosen[i]);
            if i < j {
                assert(text_before(chosen[i], chosen[j]));
            } else {
                assert(text_before(chosen[j], chosen[i]));
            }
        }
    }
    chosen.unique_seq_to_set();
}

proof fn lemma_listing(members: Set<Seq<char>>) -> (list: Seq<Seq<char>>)
    requires
        members.finite(),
    ensures
        increasing(list),
        list.to_set() == members,
    decreases members.len(),
{
    if members.len() == 0 {
        let list = Seq::<Seq<char>>::empty();
        assert(list.to_set() =~= members);
        list
    } else {
        let x = members.choose();
        let rest = lemma_listing(members.remove(x));
        assert(!rest.contains(x)) by {
            if rest.contains(x) {
                assert(rest.to_set().contains(x));
            }
        }
        let at = lemma_gap(rest, x);
        let list = rest.insert(at, x);
        assert forall|i: int, j: int| 0 <= i < j < list.len() implies text_before(
            #[trigger] list[i],
            #[trigger] list[j],
        ) by {
            if i < at && j == at {
                assert(text_before(rest[i], x));
            } else if i == at {
                assert(text_before(x, rest[j - 1]));
            } else if i < at && j > at {
                assert(text_before(rest[i], rest[j - 1]));
            } else if i > at {
                assert(text_before(rest[i - 1], rest[j - 1]));
            } else {
                assert(text_before(rest[i], rest[j]));
            }
        }
        assert(list.to_set() =~= members) by {
            assert forall|k: Seq<char>| list.to_set().contains(k) == members.contains(k) by {
                if list.to_set().contains(k) {
                    let n = list.index_of(k);
                    if n < at {
                        assert(rest[n] == k);
                        assert(rest.to_set().contains(k));
                    } else if n > at {
                        assert(rest[n - 1] == k);
                        assert(rest.to_set().contains(k));
                    }
                }
                if members.contains(k) {
                    if k == x {
                        assert(list[at] == k);
                    } else {
                        assert(rest.to_set().contains(k));
                        let n = rest.index_of(k);
                        if n < at {
                            assert(list[n] == k);
                        } else {
                            assert(list[n + 1] == k);
                        }
                    }
                }
            }
        }
        list
    }
}

/// The place of a new text in an increasing list.
proof fn lemma_gap(list: Seq<Seq<char>>, x: Seq<char>) -> (at: int)
    requires
        increasing(list),
        !list.contains(x),
    ensures
        0 <= at <= list.len(),
        forall|i: int| 0 <= i < at ==> text_before(#[trigger] list[i], x),
        forall|i: int| at <= i < list.len() ==> text_before(x, #[trigger] list[i]),
    decreases list.len(),
{
    if list.len() == 0 {
        0
    } else {
        let last = list.len() - 1;
        let front = list.drop_last();
        assert(increasing(front)) by {
            assert forall|i: int, j: int| 0 <= i < j < front.len() implies text_before(
                #[trigger] front[i],
                #[trigger] front[j],
            ) by {
                assert(text_before(list[i], list[j]));
            }
        }
        assert(list[last] != x) by {
            if list[last] == x {
                assert(list.contains(x));
            }
        }
        text_order_is_total(list[last], x);
        if text_before(list[last], x) {
            assert forall|i: int| 0 <= i < list.len() implies text_before(
                #[trigger] list[i],
                x,
            ) by {
                if i < last {
                    text_order_is_transitive(list[i], list[last], x);
                }
            }
            list.len() as int
        } else {
            assert(!front.contains(x)) by {
                if front.contains(x) {
                    let n = front.index_of(x);
                    assert(list[n] == x);
                }
            }
            let at = lemma_gap(front, x);
            assert forall|i: int| at <= i < list.len() implies text_before(
                x,
                #[trigger] list[i],
            ) by {
                if i < last {
                    assert(front[i] == list[i]);
                }
            }
            assert forall|i: int| 0 <= i < at implies text_before(#[trigger] list[i], x) by {
                assert(front[i] == list[i]);
            }
            at
        }
    }
}

impl<V> TextMap<V> {
    /// The keys are listed in the order on texts.
    pub proof fn lemma_order(&self)
        requires
            self.wf(),
        ensures
            self.key_seq() == ordered_texts(self@.dom()),
    {
        self.lemma_positions();
        increasing_list_is_unique(self.key_seq(), ordered_texts(self@.dom()));
    }
}

impl TextSet {
    /// The members are listed in the order on texts.
    pub proof fn lemma_order(&self)
        requires
            self.wf(),
        ensures
            self.member_seq() == ordered_texts(self@),
    {
        self.members.lemma_order();
    }
}

} // verus!
