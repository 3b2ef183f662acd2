//! Groups of the sources of a focus: by address block and by autonomous system. Both are derived
//! from the sources that were kept, and cannot recover those that were not.

use crate::concentration::{
    listed, share_ratio, DEFAULT_FOCUS_IPV4_GROUP_PREFIX, DEFAULT_FOCUS_IPV6_GROUP_PREFIX,
};
use crate::network::{network_display, parsed_address, width, Address, Network};
use crate::numbers::{
    ascending, is_ranking, lemma_ranking_covers, rank, ranks_before, NumberMap, Ratio,
};
use crate::ordered::{TextMap, TextSet};
use crate::status::{
    lemma_room_to_merge, outcome_summary, response_outcome_summary, CodeModel, StatusClassCounts,
    StatusCodeCounts,
};
use crate::sums::{
    lemma_list_sum_total, lemma_sum_empty, lemma_sum_insert, list_sum, map_sum,
};
use crate::text::{compare_text, opt_text, text_before, TextOrder};
use crate::volume_report::{
    ranked, PrivateFocusAsnGroup, PrivateFocusAsnSummary, PrivateFocusPrefixGroup,
    PrivateFocusSource, PrivateFocusSummary,
};
use vstd::prelude::*;

verus! {

/// The lengths of the address prefixes that make a group.
#[derive(Clone, Copy, Debug, PartialEq, Eq, Structural)]
pub struct FocusPrefixLengths {
    pub ipv4: u8,
    pub ipv6: u8,
}

impl Default for FocusPrefixLengths {
    fn default() -> (r: Self)
        ensures
            r.ipv4 == DEFAULT_FOCUS_IPV4_GROUP_PREFIX,
            r.ipv6 == DEFAULT_FOCUS_IPV6_GROUP_PREFIX,
    {
        FocusPrefixLengths {
            ipv4: DEFAULT_FOCUS_IPV4_GROUP_PREFIX,
            ipv6: DEFAULT_FOCUS_IPV6_GROUP_PREFIX,
        }
    }
}

/// What grouping reads of a source.
pub struct FocusEntry {
    pub source: Seq<char>,
    pub requests: nat,
    pub classes: StatusClassCounts,
    pub codes: Option<CodeModel>,
}

pub open spec fn opt_codes(codes: Option<StatusCodeCounts>) -> Option<CodeModel> {
    match codes {
        Some(c) => Some(c@),
        None => None,
    }
}

pub open spec fn focus_entry(s: PrivateFocusSource) -> FocusEntry {
    FocusEntry {
        source: s.source_ip@,
        requests: s.requests as nat,
        classes: s.response_status_classes,
        codes: opt_codes(s.response_status_codes),
    }
}

pub open spec fn focus_entries(sources: Seq<PrivateFocusSource>) -> Seq<FocusEntry> {
    sources.map_values(|s: PrivateFocusSource| focus_entry(s))
}

pub open spec fn entry_weight(e: FocusEntry) -> nat {
    match e.codes {
        Some(c) => c.weight(),
        None => 0,
    }
}

pub open spec fn total_requests(entries: Seq<FocusEntry>) -> nat
    decreases entries.len(),
{
    if entries.len() == 0 {
        0
    } else {
        total_requests(entries.drop_last()) + entries.last().requests
    }
}

pub open spec fn total_classes(entries: Seq<FocusEntry>) -> nat
    decreases entries.len(),
{
    if entries.len() == 0 {
        0
    } else {
        total_classes(entries.drop_last()) + entries.last().classes.total()
    }
}

pub open spec fn total_weight(entries: Seq<FocusEntry>) -> nat
    decreases entries.len(),
{
    if entries.len() == 0 {
        0
    } else {
        total_weight(entries.drop_last()) + entry_weight(entries.last())
    }
}

/// Whether the counts of all sources together can be held.
pub open spec fn countable(entries: Seq<FocusEntry>) -> bool {
    &&& total_requests(entries) <= u64::MAX
    &&& total_classes(entries) <= u64::MAX
    &&& total_weight(entries) <= u64::MAX
    &&& forall|i: int| 0 <= i < entries.len() ==> (#[trigger] entries[i]).classes.wf()
}

proof fn lemma_totals_grow(entries: Seq<FocusEntry>, n: int)
    requires
        0 <= n <= entries.len(),
    ensures
        total_requests(entries.take(n)) <= total_requests(entries),
        total_classes(entries.take(n)) <= total_classes(entries),
        total_weight(entries.take(n)) <= total_weight(entries),
    decreases entries.len() - n,
{
    if n == entries.len() {
        assert(entries.take(n) =~= entries);
    } else {
        lemma_totals_grow(entries, n + 1);
        assert(entries.take(n + 1).drop_last() =~= entries.take(n));
    }
}

/// The sums over the sources of a group.
pub struct GroupModel {
    pub requests: nat,
    pub sources: Set<Seq<char>>,
    pub classes: StatusClassCounts,
    pub codes: Option<CodeModel>,
}

impl GroupModel {
    pub open spec fn none() -> GroupModel {
        GroupModel {
            requests: 0,
            sources: Set::empty(),
            classes: StatusClassCounts::none(),
            codes: None,
        }
    }

    /// The group with one more source. The first source with code counts decides how many codes
    /// the group has room for.
    pub open spec fn joined(self, e: FocusEntry) -> GroupModel {
        GroupModel {
            requests: self.requests + e.requests,
            sources: self.sources.insert(e.source),
            classes: self.classes.sum(e.classes),
            codes: match e.codes {
                None => self.codes,
                Some(c) => match self.codes {
                    None => Some(CodeModel::none(c.maximum).merged(c)),
                    Some(kept) => Some(kept.merged(c)),
                },
            },
        }
    }
}

/// The groups that a list of sources forms, each source with the key of its group or none.
pub open spec fn grouped(entries: Seq<FocusEntry>, keys: Seq<Option<Seq<char>>>) -> Map<
    Seq<char>,
    GroupModel,
>
    decreases entries.len(),
{
    if entries.len() == 0 || keys.len() == 0 {
        Map::empty()
    } else {
        let before = grouped(entries.drop_last(), keys.drop_last());
        match keys.last() {
            None => before,
            Some(key) => {
                let group = if before.dom().contains(key) {
                    before[key]
                } else {
                    GroupModel::none()
                };
                before.insert(key, group.joined(entries.last()))
            },
        }
    }
}

pub open spec fn group_requests(groups: Map<Seq<char>, GroupModel>) -> Map<Seq<char>, nat> {
    groups.map_values(|g: GroupModel| g.requests)
}

pub open spec fn prefix_names(r: Seq<PrivateFocusPrefixGroup>) -> Seq<Seq<char>> {
    r.map_values(|g: PrivateFocusPrefixGroup| g.network_prefix@)
}

/// Whether every group is reported once, in rank order, with its sums.
pub open spec fn groups_reported(
    r: Seq<PrivateFocusPrefixGroup>,
    groups: Map<Seq<char>, GroupModel>,
    total: u64,
) -> bool {
    &&& ranked(prefix_names(r), group_requests(groups))
    &&& forall|i: int|
        0 <= i < r.len() ==> {
            let g = groups[(#[trigger] r[i]).network_prefix@];
            &&& r[i].requests == g.requests
            &&& r[i].request_share == share_ratio(g.requests as u64, total as nat)
            &&& r[i].distinct_source_ips == g.sources.len()
            &&& r[i].response_status_classes == g.classes
            &&& opt_codes(r[i].response_status_codes) == g.codes
            &&& r[i].response_outcomes == (if g.codes is Some {
                Some(outcome_summary(g.classes))
            } else {
                None
            })
        }
}

/// The key of the group of an address: its network of the configured length, as text. There is
/// none where the text is not an address or the length does not fit its family.
pub open spec fn prefix_key(source: Seq<char>, prefixes: FocusPrefixLengths) -> Option<Seq<char>> {
    match parsed_address(source) {
        None => None,
        Some(address) => {
            let length = if address.v4 {
                prefixes.ipv4
            } else {
                prefixes.ipv6
            };
            if length > width(address.v4) {
                None
            } else {
                Some(
                    network_display(
                        Network { v4: address.v4, bits: address.bits, prefix: length }.truncated(),
                    ),
                )
            }
        },
    }
}

/// The sums over the sources of a group, as they are gathered.
struct PrefixGroup {
    requests: u64,
    sources: TextSet,
    classes: StatusClassCounts,
    codes: Option<StatusCodeCounts>,
}

impl View for PrefixGroup {
    type V = GroupModel;

    closed spec fn view(&self) -> GroupModel {
        GroupModel {
            requests: self.requests as nat,
            sources: self.sources@,
            classes: self.classes,
            codes: opt_codes(self.codes),
        }
    }
}

spec fn group_models(m: Map<Seq<char>, PrefixGroup>) -> Map<Seq<char>, GroupModel> {
    m.map_values(|g: PrefixGroup| g@)
}

impl PrefixGroup {
    spec fn wf(&self, requests: nat, classes: nat, weight: nat) -> bool {
        &&& self.sources.wf()
        &&& self.classes.wf()
        &&& self.requests <= requests
        &&& self.classes.total() <= classes
        &&& self.codes matches Some(c) ==> c@.weight() <= weight
    }

    fn new() -> (r: Self)
        ensures
            r.wf(0, 0, 0),
            r@ == GroupModel::none(),
    {
        PrefixGroup {
            requests: 0,
            sources: TextSet::new(),
            classes: StatusClassCounts::default(),
            codes: None,
        }
    }

    fn join(
        &mut self,
        source: &PrivateFocusSource,
        requests: Ghost<nat>,
        classes: Ghost<nat>,
        weight: Ghost<nat>,
    )
        requires
            old(self).wf(requests@, classes@, weight@),
            source.response_status_classes.wf(),
            requests@ + source.requests <= u64::MAX,
            classes@ + source.response_status_classes.total() <= u64::MAX,
            weight@ + entry_weight(focus_entry(*source)) <= u64::MAX,
        ensures
            final(self).wf(
                requests@ + source.requests as nat,
                classes@ + source.response_status_classes.total(),
                weight@ + entry_weight(focus_entry(*source)),
            ),
            final(self)@ == old(self)@.joined(focus_entry(*source)),
    {
        self.requests = self.requests + source.requests;
        self.sources.insert(source.source_ip.clone());
        self.classes.merge(&source.response_status_classes);
        if let Some(added) = &source.response_status_codes {
            let kept = self.codes.take();
            let mut codes = match kept {
                Some(codes) => codes,
                None => StatusCodeCounts::with_maximum(added.maximum_codes),
            };
            proof {
                lemma_room_to_merge(codes@, added@);
            }
            codes.merge(added);
            self.codes = Some(codes);
        }
    }
}

/// Whether the counts of all sources together can be held.
pub fn can_group(sources: &Vec<PrivateFocusSource>) -> (r: bool)
    ensures
        r == countable(focus_entries(sources@)),
{
    let ghost entries = focus_entries(sources@);
    let mut requests: u64 = 0;
    let mut classes: u64 = 0;
    let mut weight: u64 = 0;
    let mut i: usize = 0;
    while i < sources.len()
        invariant
            i <= sources@.len(),
            entries == focus_entries(sources@),
            requests == total_requests(entries.take(i as int)),
            classes == total_classes(entries.take(i as int)),
            weight == total_weight(entries.take(i as int)),
            forall|k: int| 0 <= k < i ==> (#[trigger] entries[k]).classes.wf(),
        decreases sources.len() - i,
    {
        let source = &sources[i];
        proof {
            lemma_totals_grow(entries, i + 1);
            assert(entries.take(i + 1).drop_last() =~= entries.take(i as int));
            assert(entries.take(i + 1).last() == focus_entry(*source));
            assert(entries[i as int] == focus_entry(*source));
        }
        let counts = &source.response_status_classes;
        if counts.client_closed_request_499 > counts.client_error || !counts.can_total() {
            return false;
        }
        let codes = match &source.response_status_codes {
            Some(codes) => codes.observations(),
            None => Some(0),
        };
        let observed: u64 = match codes {
            Some(n) => n,
            None => {
                return false;
            },
        };
        match (
            requests.checked_add(source.requests),
            classes.checked_add(counts.total_observations()),
            weight.checked_add(observed),
        ) {
            (Some(a), Some(b), Some(c)) => {
                requests = a;
                classes = b;
                weight = c;
            },
            _ => {
                return false;
            },
        }
        i = i + 1;
    }
    assert(entries.take(i as int) =~= entries);
    true
}

/// Groups sources by the keys given for them, and ranks the groups.
pub fn group_sources(
    sources: &Vec<PrivateFocusSource>,
    keys: &Vec<Option<String>>,
    total: u64,
) -> (r: Vec<PrivateFocusPrefixGroup>)
    requires
        keys@.len() == sources@.len(),
        countable(focus_entries(sources@)),
    ensures
        groups_reported(
            r@,
            grouped(
                focus_entries(sources@),
                keys@.map_values(|k: Option<String>| opt_text(k)),
            ),
            total,
        ),
{
    let ghost entries = focus_entries(sources@);
    let ghost names = keys@.map_values(|k: Option<String>| opt_text(k));
    let mut groups: TextMap<PrefixGroup> = TextMap::new();
    let mut i: usize = 0;
    proof {
        assert(group_models(groups@) =~= grouped(entries.take(0), names.take(0)));
    }
    while i < sources.len()
        invariant
            keys@.len() == sources@.len(),
            entries == focus_entries(sources@),
            names == keys@.map_values(|k: Option<String>| opt_text(k)),
            countable(entries),
            i <= sources@.len(),
            groups.wf(),
            group_models(groups@) == grouped(entries.take(i as int), names.take(i as int)),
            forall|k: Seq<char>| #[trigger]
                groups@.dom().contains(k) ==> groups@[k].wf(
                    total_requests(entries.take(i as int)),
                    total_classes(entries.take(i as int)),
                    total_weight(entries.take(i as int)),
                ),
        decreases sources.len() - i,
    {
        let ghost before = groups@;
        let ghost requests = total_requests(entries.take(i as int));
        let ghost classes = total_classes(entries.take(i as int));
        let ghost weight = total_weight(entries.take(i as int));
        proof {
            assert(entries.take(i + 1).drop_last() =~= entries.take(i as int));
            assert(names.take(i + 1).drop_last() =~= names.take(i as int));
            assert(entries.take(i + 1).last() == focus_entry(sources@[i as int]));
            assert(names.take(i + 1).last() == opt_text(keys@[i as int]));
            lemma_totals_grow(entries, i + 1);
            assert(entries[i as int].classes.wf());
            assert(group_models(before).dom() =~= before.dom());
        }
        if let Some(key) = &keys[i] {
            let mut found = false;
            if let Some(group) = groups.get_mut(key.as_str()) {
                group.join(&sources[i], Ghost(requests), Ghost(classes), Ghost(weight));
                found = true;
            }
            if !found {
                let mut group = PrefixGroup::new();
                group.join(&sources[i], Ghost(requests), Ghost(classes), Ghost(weight));
                groups.insert(key.clone(), group);
            }
            proof {
                let g = groups@[key@];
                assert(groups@ =~= before.insert(key@, g));
                assert(group_models(groups@) =~= group_models(before).insert(key@, g@));
            }
        }
        i = i + 1;
    }
    proof {
        assert(entries.take(i as int) =~= entries);
        assert(names.take(i as int) =~= names);
        groups.lemma_positions();
    }
    let ghost models = grouped(entries, names);
    let count = groups.len();
    let mut counts: Vec<u64> = Vec::new();
    let mut j: usize = 0;
    while j < count
        invariant
            groups.wf(),
            count == groups.key_seq().len(),
            j <= count,
            counts@.len() == j,
            forall|k: int| 0 <= k < j ==> #[trigger] counts@[k] == groups@[groups.key_seq()[k]].requests,
        decreases count - j,
    {
        counts.push(groups.value_at(j).requests);
        j = j + 1;
    }
    let order = rank(&counts);
    let ghost list = listed(groups.key_seq(), order@);
    proof {
        let requests = group_requests(models);
        assert(models.dom() =~= groups@.dom());
        assert(requests.dom() =~= groups@.dom());
        assert forall|k: int| 0 <= k < groups.key_seq().len() implies counts@[k] == requests[#[trigger] groups.key_seq()[k]] by {
            assert(groups@.dom().contains(groups.key_seq()[k]));
            assert(counts@[k] == groups@[groups.key_seq()[k]].requests);
            assert(group_models(groups@)[groups.key_seq()[k]] == groups@[groups.key_seq()[k]]@);
        }
        crate::concentration::lemma_listed_is_ranked(groups.key_seq(), counts@, order@, requests);
    }
    let mut r: Vec<PrivateFocusPrefixGroup> = Vec::new();
    let mut n: usize = 0;
    while n < order.len()
        invariant
            groups.wf(),
            models == group_models(groups@),
            forall|k: Seq<char>| #[trigger]
                groups@.dom().contains(k) ==> groups@[k].wf(
                    total_requests(entries),
                    total_classes(entries),
                    total_weight(entries),
                ),
            list == listed(groups.key_seq(), order@),
            forall|k: int| 0 <= k < order@.len() ==> (#[trigger] order@[k]) < groups.key_seq().len(),
            n <= order@.len(),
            r@.len() == n,
            forall|k: int|
                0 <= k < n ==> {
                    let g = models[list[k]];
                    &&& (#[trigger] r@[k]).network_prefix@ == list[k]
                    &&& r@[k].requests == g.requests
                    &&& r@[k].request_share == share_ratio(g.requests as u64, total as nat)
                    &&& r@[k].distinct_source_ips == g.sources.len()
                    &&& r@[k].response_status_classes == g.classes
                    &&& opt_codes(r@[k].response_status_codes) == g.codes
                    &&& r@[k].response_outcomes == (if g.codes is Some {
                        Some(outcome_summary(g.classes))
                    } else {
                        None
                    })
                },
        decreases order.len() - n,
    {
        let at = order[n];
        assert(order@[n as int] < groups.key_seq().len());
        let key = groups.key_at(at);
        let group = groups.value_at(at);
        proof {
            assert(models[key@] == group@);
            assert(list[n as int] == key@);
        }
        let (codes, outcomes) = match &group.codes {
            Some(codes) => (Some(codes.copy()), Some(response_outcome_summary(&group.classes))),
            None => (None, None),
        };
        r.push(
            PrivateFocusPrefixGroup {
                network_prefix: key.clone(),
                requests: group.requests,
                request_share: Ratio { numerator: group.requests, denominator: total },
                distinct_source_ips: group.sources.len(),
                response_status_classes: group.classes,
                response_status_codes: codes,
                response_outcomes: outcomes,
            },
        );
        n = n + 1;
    }
    assert(prefix_names(r@) =~= list);
    r
}

/// The key of the group of each source.
pub open spec fn prefix_keys(
    sources: Seq<PrivateFocusSource>,
    prefixes: FocusPrefixLengths,
) -> Seq<Option<Seq<char>>> {
    sources.map_values(|s: PrivateFocusSource| prefix_key(s.source_ip@, prefixes))
}

/// The requests of the sources that have a group.
pub open spec fn placed_requests(entries: Seq<FocusEntry>, keys: Seq<Option<Seq<char>>>) -> nat
    decreases entries.len(),
{
    if entries.len() == 0 || keys.len() == 0 {
        0
    } else {
        placed_requests(entries.drop_last(), keys.drop_last()) + if keys.last() is Some {
            entries.last().requests
        } else {
            0
        }
    }
}

/// The sources that have a group.
pub open spec fn placed_sources(
    entries: Seq<FocusEntry>,
    keys: Seq<Option<Seq<char>>>,
) -> Set<Seq<char>>
    decreases entries.len(),
{
    if entries.len() == 0 || keys.len() == 0 {
        Set::empty()
    } else {
        let before = placed_sources(entries.drop_last(), keys.drop_last());
        if keys.last() is Some {
            before.insert(entries.last().source)
        } else {
            before
        }
    }
}

/// Whether entries of one source have one group.
pub open spec fn keyed_by_source(
    entries: Seq<FocusEntry>,
    keys: Seq<Option<Seq<char>>>,
) -> bool {
    &&& entries.len() == keys.len()
    &&& forall|i: int, j: int|
        0 <= i < entries.len() && 0 <= j < entries.len() && (#[trigger] entries[i]).source == (
        #[trigger] entries[j]).source ==> keys[i] == keys[j]
}

/// How many sources each group has.
pub open spec fn group_sizes(groups: Map<Seq<char>, GroupModel>) -> Map<Seq<char>, nat> {
    groups.map_values(|g: GroupModel| g.sources.len())
}

/// Whether some entry puts a source into a group.
pub open spec fn puts(
    entries: Seq<FocusEntry>,
    keys: Seq<Option<Seq<char>>>,
    source: Seq<char>,
    key: Seq<char>,
) -> bool {
    exists|i: int|
        0 <= i < entries.len() && (#[trigger] entries[i]).source == source && keys[i] == Some(key)
}

proof fn lemma_groups_add_up(entries: Seq<FocusEntry>, keys: Seq<Option<Seq<char>>>)
    requires
        keyed_by_source(entries, keys),
    ensures
        ({
            let groups = grouped(entries, keys);
            let placed = placed_sources(entries, keys);
            &&& groups.dom().finite()
            &&& placed.finite()
            &&& map_sum(group_requests(groups)) == placed_requests(entries, keys)
            &&& map_sum(group_sizes(groups)) == placed.len()
            &&& forall|k: Seq<char>| #[trigger]
                groups.dom().contains(k) ==> groups[k].sources.finite()
            &&& forall|k: Seq<char>, s: Seq<char>|
                groups.dom().contains(k) && #[trigger] groups[k].sources.contains(s) ==> puts(
                    entries,
                    keys,
                    s,
                    k,
                )
            &&& forall|s: Seq<char>| #[trigger]
                placed.contains(s) ==> exists|k: Seq<char>| #[trigger]
                    groups.dom().contains(k) && groups[k].sources.contains(s)
        }),
    decreases entries.len(),
{
    let groups = grouped(entries, keys);
    let placed = placed_sources(entries, keys);
    if entries.len() == 0 {
        assert(group_requests(groups) =~= Map::<Seq<char>, nat>::empty());
        assert(group_sizes(groups) =~= Map::<Seq<char>, nat>::empty());
        lemma_sum_empty::<Seq<char>>();
    } else {
        let n = entries.len() - 1;
        let (xs, ks) = (entries.drop_last(), keys.drop_last());
        assert forall|i: int, j: int|
            0 <= i < xs.len() && 0 <= j < xs.len() && (#[trigger] xs[i]).source == (
            #[trigger] xs[j]).source implies ks[i] == ks[j] by {
            assert(entries[i].source == entries[j].source);
        }
        lemma_groups_add_up(xs, ks);
        let before = grouped(xs, ks);
        let had = placed_sources(xs, ks);
        let e = entries.last();
        assert(entries[n] == e && keys[n] == keys.last());
        assert forall|s: Seq<char>, k: Seq<char>| puts(xs, ks, s, k) implies #[trigger] puts(
            entries,
            keys,
            s,
            k,
        ) by {
            let i = choose|i: int|
                0 <= i < xs.len() && (#[trigger] xs[i]).source == s && ks[i] == Some(k);
            assert(entries[i] == xs[i]);
        }
        match keys.last() {
            None => {},
            Some(key) => {
                let group = if before.dom().contains(key) {
                    before[key]
                } else {
                    GroupModel::none()
                };
                let joined = group.joined(e);
                assert(puts(entries, keys, e.source, key));
                assert(group_requests(before).dom() =~= before.dom());
                assert(group_sizes(before).dom() =~= before.dom());
                assert(group_requests(groups) =~= group_requests(before).insert(
                    key,
                    joined.requests,
                ));
                assert(group_sizes(groups) =~= group_sizes(before).insert(
                    key,
                    joined.sources.len(),
                ));
                lemma_sum_insert(group_requests(before), key, joined.requests);
                lemma_sum_insert(group_sizes(before), key, joined.sources.len());
                if had.contains(e.source) {
                    let k = choose|k: Seq<char>| #[trigger]
                        before.dom().contains(k) && before[k].sources.contains(e.source);
                    assert(puts(xs, ks, e.source, k));
                    let i = choose|i: int|
                        0 <= i < xs.len() && (#[trigger] xs[i]).source == e.source && ks[i] == Some(
                            k,
                        );
                    assert(entries[i] == xs[i]);
                    assert(entries[i].source == entries[n].source);
                    assert(k == key);
                    assert(joined.sources =~= group.sources);
                    assert(placed =~= had);
                } else {
                    if group.sources.contains(e.source) {
                        assert(before.dom().contains(key));
                        assert(before[key].sources.contains(e.source));
                        assert(puts(xs, ks, e.source, key));
                        let i = choose|i: int|
                            0 <= i < xs.len() && (#[trigger] xs[i]).source == e.source && ks[i]
                                == Some(key);
                        lemma_placed(xs, ks, i);
                    }
                }
                assert forall|s: Seq<char>| #[trigger] placed.contains(s) implies exists|k: Seq<char>|
                    #[trigger] groups.dom().contains(k) && groups[k].sources.contains(s) by {
                    if s == e.source {
                        assert(groups.dom().contains(key) && groups[key].sources.contains(s));
                    } else {
                        assert(had.contains(s));
                        let k = choose|k: Seq<char>| #[trigger]
                            before.dom().contains(k) && before[k].sources.contains(s);
                        assert(groups.dom().contains(k) && groups[k].sources.contains(s));
                    }
                }
                assert forall|k: Seq<char>, s: Seq<char>|
                    groups.dom().contains(k) && #[trigger] groups[k].sources.contains(s) implies puts(
                    entries,
                    keys,
                    s,
                    k,
                ) by {
                    if k != key || s != e.source {
                        if before.dom().contains(k) {
                            assert(before[k].sources.contains(s));
                            assert(puts(xs, ks, s, k));
                        }
                    }
                }
            },
        }
    }
}

proof fn lemma_placed(entries: Seq<FocusEntry>, keys: Seq<Option<Seq<char>>>, i: int)
    requires
        entries.len() == keys.len(),
        0 <= i < entries.len(),
        keys[i] is Some,
    ensures
        placed_sources(entries, keys).contains(entries[i].source),
    decreases entries.len(),
{
    if i < entries.len() - 1 {
        lemma_placed(entries.drop_last(), keys.drop_last(), i);
    }
}

/// The requests of all reported groups together.
pub open spec fn reported_requests(r: Seq<PrivateFocusPrefixGroup>) -> nat
    decreases r.len(),
{
    if r.len() == 0 {
        0
    } else {
        reported_requests(r.drop_last()) + r.last().requests as nat
    }
}

/// The source counts of all reported groups together.
pub open spec fn reported_sources(r: Seq<PrivateFocusPrefixGroup>) -> nat
    decreases r.len(),
{
    if r.len() == 0 {
        0
    } else {
        reported_sources(r.drop_last()) + r.last().distinct_source_ips as nat
    }
}

proof fn lemma_reported_sums(
    r: Seq<PrivateFocusPrefixGroup>,
    groups: Map<Seq<char>, GroupModel>,
)
    requires
        forall|i: int|
            0 <= i < r.len() ==> groups.dom().contains((#[trigger] r[i]).network_prefix@)
                && r[i].requests == groups[r[i].network_prefix@].requests
                && r[i].distinct_source_ips == groups[r[i].network_prefix@].sources.len(),
    ensures
        reported_requests(r) == list_sum(prefix_names(r), group_requests(groups)),
        reported_sources(r) == list_sum(prefix_names(r), group_sizes(groups)),
    decreases r.len(),
{
    if r.len() > 0 {
        let front = r.drop_last();
        assert forall|i: int| 0 <= i < front.len() implies groups.dom().contains(
            (#[trigger] front[i]).network_prefix@,
        ) && front[i].requests == groups[front[i].network_prefix@].requests
            && front[i].distinct_source_ips == groups[front[i].network_prefix@].sources.len() by {
            assert(r[i] == front[i]);
        }
        lemma_reported_sums(front, groups);
        assert(prefix_names(r).drop_last() =~= prefix_names(front));
        assert(r[r.len() - 1] == r.last());
    }
}

/// The groups by address block hold every request of the sources that have a block, and count
/// each of these sources once.
pub proof fn prefix_groups_add_up(
    r: Seq<PrivateFocusPrefixGroup>,
    sources: Seq<PrivateFocusSource>,
    prefixes: FocusPrefixLengths,
    total: u64,
)
    requires
        groups_reported(
            r,
            grouped(focus_entries(sources), prefix_keys(sources, prefixes)),
            total,
        ),
    ensures
        reported_requests(r) == placed_requests(
            focus_entries(sources),
            prefix_keys(sources, prefixes),
        ),
        reported_sources(r) == placed_sources(
            focus_entries(sources),
            prefix_keys(sources, prefixes),
        ).len(),
{
    let entries = focus_entries(sources);
    let keys = prefix_keys(sources, prefixes);
    let groups = grouped(entries, keys);
    assert forall|i: int, j: int|
        0 <= i < entries.len() && 0 <= j < entries.len() && (#[trigger] entries[i]).source == (
        #[trigger] entries[j]).source implies keys[i] == keys[j] by {
        assert(entries[i].source == sources[i].source_ip@);
        assert(entries[j].source == sources[j].source_ip@);
    }
    lemma_groups_add_up(entries, keys);
    let names = prefix_names(r);
    assert(group_requests(groups).dom() =~= groups.dom());
    assert(group_sizes(groups).dom() =~= groups.dom());
    assert forall|i: int| 0 <= i < r.len() implies groups.dom().contains(
        (#[trigger] r[i]).network_prefix@,
    ) by {
        assert(names[i] == r[i].network_prefix@);
        assert(names.to_set().contains(names[i]));
    }
    lemma_reported_sums(r, groups);
    lemma_list_sum_total(names, group_requests(groups));
    lemma_list_sum_total(names, group_sizes(groups));
}

/// Adds the groups by address block to a focus summary.
pub fn add_focus_prefix_groups(focus: &mut PrivateFocusSummary, prefixes: FocusPrefixLengths)
    requires
        countable(focus_entries(old(focus).sources@)),
    ensures
        groups_reported(
            final(focus).network_prefix_groups@,
            grouped(
                focus_entries(old(focus).sources@),
                prefix_keys(old(focus).sources@, prefixes),
            ),
            old(focus).total_requests,
        ),
        *final(focus) == (PrivateFocusSummary {
            network_prefix_groups: final(focus).network_prefix_groups,
            ..*old(focus)
        }),
        reported_requests(final(focus).network_prefix_groups@) == placed_requests(
            focus_entries(old(focus).sources@),
            prefix_keys(old(focus).sources@, prefixes),
        ),
        reported_sources(final(focus).network_prefix_groups@) == placed_sources(
            focus_entries(old(focus).sources@),
            prefix_keys(old(focus).sources@, prefixes),
        ).len(),
{
    let mut keys: Vec<Option<String>> = Vec::new();
    let mut i: usize = 0;
    while i < focus.sources.len()
        invariant
            i <= focus.sources@.len(),
            keys@.len() == i,
            *focus == *old(focus),
            forall|j: int|
                0 <= j < i ==> opt_text(#[trigger] keys@[j]) == prefix_key(
                    focus.sources@[j].source_ip@,
                    prefixes,
                ),
        decreases focus.sources.len() - i,
    {
        let key = match Address::parse(focus.sources[i].source_ip.as_str()) {
            Some(address) => {
                let length = if address.v4 {
                    prefixes.ipv4
                } else {
                    prefixes.ipv6
                };
                let fits = if address.v4 {
                    length <= 32
                } else {
                    length <= 128
                };
                if fits {
                    let network = Network { v4: address.v4, bits: address.bits, prefix: length };
                    Some(network.trunc().display())
                } else {
                    None
                }
            },
            None => None,
        };
        keys.push(key);
        i = i + 1;
    }
    assert(keys@.map_values(|k: Option<String>| opt_text(k)) =~= prefix_keys(
        focus.sources@,
        prefixes,
    ));
    let groups = group_sources(&focus.sources, &keys, focus.total_requests);
    proof {
        prefix_groups_add_up(groups@, focus.sources@, prefixes, focus.total_requests);
    }
    focus.network_prefix_groups = groups;
}

/// The autonomous system that a local data set names for an address.
#[derive(Clone, Debug)]
pub struct ResolvedAsn {
    pub asn: u32,
    pub org: String,
}

pub struct AsnModel {
    pub organization: Seq<char>,
    pub requests: nat,
    pub sources: Set<Seq<char>>,
}

/// The groups by number. Where the data set names one number more than once, the first label in
/// the order on texts stands.
pub open spec fn asn_grouped(
    entries: Seq<FocusEntry>,
    resolved: Seq<Option<ResolvedAsn>>,
) -> Map<i64, AsnModel>
    decreases entries.len(),
{
    if entries.len() == 0 || resolved.len() == 0 {
        Map::empty()
    } else {
        let before = asn_grouped(entries.drop_last(), resolved.drop_last());
        match resolved.last() {
            None => before,
            Some(found) => {
                let key = found.asn as i64;
                let group = if before.dom().contains(key) {
                    AsnModel {
                        organization: if text_before(found.org@, before[key].organization) {
                            found.org@
                        } else {
                            before[key].organization
                        },
                        ..before[key]
                    }
                } else {
                    AsnModel { organization: found.org@, requests: 0, sources: Set::empty() }
                };
                before.insert(
                    key,
                    AsnModel {
                        requests: group.requests + entries.last().requests,
                        sources: group.sources.insert(entries.last().source),
                        ..group
                    },
                )
            },
        }
    }
}

pub open spec fn unresolved_count(resolved: Seq<Option<ResolvedAsn>>) -> nat
    decreases resolved.len(),
{
    if resolved.len() == 0 {
        0
    } else {
        unresolved_count(resolved.drop_last()) + if resolved.last() is None {
            1nat
        } else {
            0nat
        }
    }
}

pub open spec fn unresolved_total(
    entries: Seq<FocusEntry>,
    resolved: Seq<Option<ResolvedAsn>>,
) -> nat
    decreases entries.len(),
{
    if entries.len() == 0 || resolved.len() == 0 {
        0
    } else {
        unresolved_total(entries.drop_last(), resolved.drop_last()) + if resolved.last() is None {
            entries.last().requests
        } else {
            0
        }
    }
}

/// Whether a list names every number once, those with more requests first and those with equally
/// many by number.
pub open spec fn ranked_numbers(list: Seq<i64>, groups: Map<i64, AsnModel>) -> bool {
    &&& list.no_duplicates()
    &&& list.to_set() == groups.dom()
    &&& forall|i: int, j: int|
        0 <= i < j < list.len() ==> groups[#[trigger] list[i]].requests > groups[#[trigger] list[j]].requests
            || (groups[list[i]].requests == groups[list[j]].requests && list[i] < list[j])
}

pub open spec fn asn_numbers(r: Seq<PrivateFocusAsnGroup>) -> Seq<i64> {
    r.map_values(|g: PrivateFocusAsnGroup| g.asn as i64)
}

pub open spec fn is_asn_summary(
    r: PrivateFocusAsnSummary,
    entries: Seq<FocusEntry>,
    resolved: Seq<Option<ResolvedAsn>>,
    total: u64,
) -> bool {
    let groups = asn_grouped(entries, resolved);
    &&& r.unresolved_source_ips == unresolved_count(resolved)
    &&& r.unresolved_requests == unresolved_total(entries, resolved)
    &&& ranked_numbers(asn_numbers(r.groups@), groups)
    &&& forall|i: int|
        0 <= i < r.groups@.len() ==> {
            let g = groups[(#[trigger] r.groups@[i]).asn as i64];
            &&& r.groups@[i].organization@ == g.organization
            &&& r.groups@[i].requests == g.requests
            &&& r.groups@[i].request_share == share_ratio(g.requests as u64, total as nat)
            &&& r.groups@[i].distinct_source_ips == g.sources.len()
        }
}

struct AsnGroup {
    organization: String,
    requests: u64,
    sources: TextSet,
}

impl View for AsnGroup {
    type V = AsnModel;

    closed spec fn view(&self) -> AsnModel {
        AsnModel {
            organization: self.organization@,
            requests: self.requests as nat,
            sources: self.sources@,
        }
    }
}

spec fn asn_models(m: Map<i64, AsnGroup>) -> Map<i64, AsnModel> {
    m.map_values(|g: AsnGroup| g@)
}

fn copied_set(set: &TextSet) -> (r: TextSet)
    requires
        set.wf(),
    ensures
        r.wf(),
        r@ == set@,
{
    let mut r = TextSet::new();
    let count = set.len();
    let mut i: usize = 0;
    while i < count
        invariant
            set.wf(),
            r.wf(),
            count == set.member_seq().len(),
            i <= count,
            r@ == set.member_seq().take(i as int).to_set(),
        decreases count - i,
    {
        let ghost before = set.member_seq().take(i as int);
        r.insert(set.member_at(i).clone());
        proof {
            let after = set.member_seq().take(i + 1);
            assert(after =~= before.push(set.member_seq()[i as int]));
            assert(after.to_set() =~= before.to_set().insert(set.member_seq()[i as int])) by {
                assert forall|k: Seq<char>| after.to_set().contains(k) == before.to_set().insert(
                    set.member_seq()[i as int],
                ).contains(k) by {
                    if after.to_set().contains(k) {
                        let j = after.index_of(k);
                        assert(after[j] == k);
                        if j < i {
                            assert(before[j] == k);
                        }
                    }
                    if before.to_set().contains(k) {
                        let j = before.index_of(k);
                        assert(after[j] == k);
                    }
                    assert(after[i as int] == set.member_seq()[i as int]);
                }
            }
        }
        i = i + 1;
    }
    proof {
        set.lemma_members();
        assert(set.member_seq().take(i as int) =~= set.member_seq());
    }
    r
}

/// Groups sources by the autonomous systems resolved for them. There is one resolution for each
/// source, `None` where it has none.
pub fn asn_summary(
    sources: &Vec<PrivateFocusSource>,
    resolved: &Vec<Option<ResolvedAsn>>,
    total: u64,
) -> (r: PrivateFocusAsnSummary)
    requires
        resolved@.len() == sources@.len(),
        total_requests(focus_entries(sources@)) <= u64::MAX,
    ensures
        is_asn_summary(r, focus_entries(sources@), resolved@, total),
{
    let ghost entries = focus_entries(sources@);
    let mut groups: NumberMap<AsnGroup> = NumberMap::new();
    let mut unresolved_source_ips: usize = 0;
    let mut unresolved_requests: u64 = 0;
    let mut i: usize = 0;
    proof {
        assert(asn_models(groups@) =~= asn_grouped(entries.take(0), resolved@.take(0)));
    }
    while i < sources.len()
        invariant
            resolved@.len() == sources@.len(),
            entries == focus_entries(sources@),
            total_requests(entries) <= u64::MAX,
            i <= sources@.len(),
            groups.wf(),
            asn_models(groups@) == asn_grouped(entries.take(i as int), resolved@.take(i as int)),
            unresolved_source_ips == unresolved_count(resolved@.take(i as int)),
            unresolved_source_ips <= i,
            unresolved_requests == unresolved_total(entries.take(i as int), resolved@.take(i as int)),
            unresolved_requests <= total_requests(entries.take(i as int)),
            forall|k: i64| #[trigger]
                groups@.dom().contains(k) ==> groups@[k].sources.wf() && groups@[k].requests
                    <= total_requests(entries.take(i as int)) && 0 <= k <= u32::MAX,
        decreases sources.len() - i,
    {
        let ghost before = groups@;
        proof {
            assert(entries.take(i + 1).drop_last() =~= entries.take(i as int));
            assert(resolved@.take(i + 1).drop_last() =~= resolved@.take(i as int));
            assert(entries.take(i + 1).last() == focus_entry(sources@[i as int]));
            lemma_totals_grow(entries, i + 1);
            assert(asn_models(before).dom() =~= before.dom());
        }
        match &resolved[i] {
            None => {
                unresolved_source_ips = unresolved_source_ips + 1;
                unresolved_requests = unresolved_requests + sources[i].requests;
            },
            Some(found) => {
                let key = found.asn as i64;
                let mut group = match groups.get(key) {
                    Some(kept) => AsnGroup {
                        organization: match compare_text(
                            found.org.as_str(),
                            kept.organization.as_str(),
                        ) {
                            TextOrder::Before => found.org.clone(),
                            _ => kept.organization.clone(),
                        },
                        requests: kept.requests,
                        sources: copied_set(&kept.sources),
                    },
                    None => AsnGroup {
                        organization: found.org.clone(),
                        requests: 0,
                        sources: TextSet::new(),
                    },
                };
                group.requests = group.requests + sources[i].requests;
                group.sources.insert(sources[i].source_ip.clone());
                let ghost g = group;
                groups.insert(key, group);
                proof {
                    assert(asn_models(groups@) =~= asn_models(before).insert(key, g@));
                }
            },
        }
        i = i + 1;
    }
    proof {
        assert(entries.take(i as int) =~= entries);
        assert(resolved@.take(i as int) =~= resolved@);
        groups.lemma_positions();
    }
    let ghost models = asn_grouped(entries, resolved@);
    let ghost keys = groups.key_seq();
    let count = groups.len();
    let mut counts: Vec<u64> = Vec::new();
    let mut j: usize = 0;
    while j < count
        invariant
            groups.wf(),
            keys == groups.key_seq(),
            count == keys.len(),
            j <= count,
            counts@.len() == j,
            forall|k: int| 0 <= k < j ==> #[trigger] counts@[k] == groups@[keys[k]].requests,
        decreases count - j,
    {
        counts.push(groups.value_at(j).requests);
        j = j + 1;
    }
    let order = rank(&counts);
    let ghost list = order@.map_values(|p: usize| keys[p as int]);
    proof {
        assert(models.dom() =~= groups@.dom());
        lemma_numbers_ranked(keys, counts@, order@, models);
    }
    let mut r: Vec<PrivateFocusAsnGroup> = Vec::new();
    let mut n: usize = 0;
    while n < order.len()
        invariant
            groups.wf(),
            keys == groups.key_seq(),
            models == asn_models(groups@),
            forall|k: i64| #[trigger]
                groups@.dom().contains(k) ==> groups@[k].sources.wf() && 0 <= k <= u32::MAX,
            list == order@.map_values(|p: usize| keys[p as int]),
            forall|k: int| 0 <= k < order@.len() ==> (#[trigger] order@[k]) < keys.len(),
            n <= order@.len(),
            r@.len() == n,
            forall|k: int|
                0 <= k < n ==> {
                    let g = models[list[k]];
                    &&& (#[trigger] r@[k]).asn as i64 == list[k]
                    &&& r@[k].organization@ == g.organization
                    &&& r@[k].requests == g.requests
                    &&& r@[k].request_share == share_ratio(g.requests as u64, total as nat)
                    &&& r@[k].distinct_source_ips == g.sources.len()
                },
        decreases order.len() - n,
    {
        let at = order[n];
        assert(order@[n as int] < keys.len());
        let key = groups.key_at(at);
        let group = groups.value_at(at);
        proof {
            assert(models[key] == group@);
            assert(list[n as int] == key);
        }
        r.push(
            PrivateFocusAsnGroup {
                asn: key as u32,
                organization: group.organization.clone(),
                requests: group.requests,
                request_share: Ratio { numerator: group.requests, denominator: total },
                distinct_source_ips: group.sources.len(),
            },
        );
        n = n + 1;
    }
    assert(asn_numbers(r@) =~= list);
    PrivateFocusAsnSummary { groups: r, unresolved_source_ips, unresolved_requests }
}

proof fn lemma_numbers_ranked(
    keys: Seq<i64>,
    counts: Seq<u64>,
    order: Seq<usize>,
    groups: Map<i64, AsnModel>,
)
    requires
        ascending(keys),
        keys.no_duplicates(),
        keys.to_set() == groups.dom(),
        counts.len() == keys.len(),
        is_ranking(order, counts),
        forall|i: int| 0 <= i < keys.len() ==> counts[i] == groups[#[trigger] keys[i]].requests,
    ensures
        ranked_numbers(order.map_values(|p: usize| keys[p as int]), groups),
        forall|i: int| 0 <= i < order.len() ==> (#[trigger] order[i]) < keys.len(),
{
    let list = order.map_values(|p: usize| keys[p as int]);
    lemma_ranking_covers(order, counts);
    assert forall|i: int, j: int| 0 <= i < j < list.len() implies groups[#[trigger] list[i]].requests
        > groups[#[trigger] list[j]].requests || (groups[list[i]].requests
        == groups[list[j]].requests && list[i] < list[j]) by {
        assert(ranks_before(counts, order[i] as int, order[j] as int));
        assert(counts[order[i] as int] == groups[keys[order[i] as int]].requests);
        assert(counts[order[j] as int] == groups[keys[order[j] as int]].requests);
    }
    assert forall|i: int, j: int| 0 <= i < list.len() && 0 <= j < list.len() && i != j implies list[i]
        != list[j] by {
        assert(order[i] != order[j]);
        assert(keys[order[i] as int] != keys[order[j] as int]);
    }
    assert(list.to_set() =~= groups.dom()) by {
        assert forall|k: i64| list.to_set().contains(k) == groups.dom().contains(k) by {
            if list.to_set().contains(k) {
                let i = list.index_of(k);
                assert(list[i] == k);
                assert(keys[order[i] as int] == k);
                assert(keys.to_set().contains(k));
            }
            if groups.dom().contains(k) {
                assert(keys.to_set().contains(k));
                let p = keys.index_of(k);
                assert(keys[p] == k);
                assert(crate::numbers::lists(order, p));
                let i = choose|i: int| 0 <= i < order.len() && #[trigger] order[i] == p;
                assert(list[i] == k);
            }
        }
    }
}

/// Adds the groups by autonomous system to a focus summary, from one resolution for each source.
pub fn add_focus_asn_groups(focus: &mut PrivateFocusSummary, resolved: &Vec<Option<ResolvedAsn>>)
    requires
        resolved@.len() == old(focus).sources@.len(),
        total_requests(focus_entries(old(focus).sources@)) <= u64::MAX,
    ensures
        final(focus).asn matches Some(summary) && is_asn_summary(
            summary,
            focus_entries(old(focus).sources@),
            resolved@,
            old(focus).total_requests,
        ),
        *final(focus) == (PrivateFocusSummary { asn: final(focus).asn, ..*old(focus) }),
{
    let summary = asn_summary(&focus.sources, resolved, focus.total_requests);
    focus.asn = Some(summary);
}

/// Every source is resolved or counted as unresolved, with its requests.
pub proof fn unresolved_sources_are_disclosed(
    entries: Seq<FocusEntry>,
    resolved: Seq<Option<ResolvedAsn>>,
    i: int,
)
    requires
        entries.len() == resolved.len(),
        0 <= i < entries.len(),
    ensures
        resolved[i] is None ==> unresolved_count(resolved) > 0 && unresolved_total(entries, resolved)
            >= entries[i].requests,
        resolved[i] is Some ==> asn_grouped(entries, resolved).dom().contains(
            resolved[i].unwrap().asn as i64,
        ) && asn_grouped(entries, resolved)[resolved[i].unwrap().asn as i64].sources.contains(
            entries[i].source,
        ) && asn_grouped(entries, resolved)[resolved[i].unwrap().asn as i64].requests
            >= entries[i].requests,
    decreases entries.len(),
{
    if i < entries.len() - 1 {
        unresolved_sources_are_disclosed(entries.drop_last(), resolved.drop_last(), i);
    }
}

/// The requests of each numbered group.
pub open spec fn asn_requests(groups: Map<i64, AsnModel>) -> Map<i64, nat> {
    groups.map_values(|g: AsnModel| g.requests)
}

/// The requests of all reported numbered groups together.
pub open spec fn reported_asn_requests(r: Seq<PrivateFocusAsnGroup>) -> nat
    decreases r.len(),
{
    if r.len() == 0 {
        0
    } else {
        reported_asn_requests(r.drop_last()) + r.last().requests as nat
    }
}

proof fn lemma_asn_groups_add_up(entries: Seq<FocusEntry>, resolved: Seq<Option<ResolvedAsn>>)
    requires
        entries.len() == resolved.len(),
    ensures
        asn_grouped(entries, resolved).dom().finite(),
        map_sum(asn_requests(asn_grouped(entries, resolved))) + unresolved_total(entries, resolved)
            == total_requests(entries),
    decreases entries.len(),
{
    let groups = asn_grouped(entries, resolved);
    if entries.len() == 0 {
        assert(asn_requests(groups) =~= Map::<i64, nat>::empty());
        lemma_sum_empty::<i64>();
    } else {
        lemma_asn_groups_add_up(entries.drop_last(), resolved.drop_last());
        let before = asn_grouped(entries.drop_last(), resolved.drop_last());
        if let Some(found) = resolved.last() {
            let key = found.asn as i64;
            assert(asn_requests(before).dom() =~= before.dom());
            assert(asn_requests(groups) =~= asn_requests(before).insert(key, groups[key].requests));
            lemma_sum_insert(asn_requests(before), key, groups[key].requests);
        }
    }
}

proof fn lemma_asn_reported_sum(r: Seq<PrivateFocusAsnGroup>, groups: Map<i64, AsnModel>)
    requires
        forall|i: int|
            0 <= i < r.len() ==> groups.dom().contains((#[trigger] r[i]).asn as i64)
                && r[i].requests == groups[r[i].asn as i64].requests,
    ensures
        reported_asn_requests(r) == list_sum(asn_numbers(r), asn_requests(groups)),
    decreases r.len(),
{
    if r.len() > 0 {
        let front = r.drop_last();
        assert forall|i: int| 0 <= i < front.len() implies groups.dom().contains(
            (#[trigger] front[i]).asn as i64,
        ) && front[i].requests == groups[front[i].asn as i64].requests by {
            assert(r[i] == front[i]);
        }
        lemma_asn_reported_sum(front, groups);
        assert(asn_numbers(r).drop_last() =~= asn_numbers(front));
        assert(r[r.len() - 1] == r.last());
    }
}

/// The numbered groups and the unresolved sources together hold every request of the sources.
pub proof fn asn_groups_add_up(
    r: PrivateFocusAsnSummary,
    entries: Seq<FocusEntry>,
    resolved: Seq<Option<ResolvedAsn>>,
    total: u64,
)
    requires
        entries.len() == resolved.len(),
        is_asn_summary(r, entries, resolved, total),
    ensures
        reported_asn_requests(r.groups@) + r.unresolved_requests == total_requests(entries),
{
    let groups = asn_grouped(entries, resolved);
    let numbers = asn_numbers(r.groups@);
    lemma_asn_groups_add_up(entries, resolved);
    assert(asn_requests(groups).dom() =~= groups.dom());
    assert forall|i: int| 0 <= i < r.groups@.len() implies groups.dom().contains(
        (#[trigger] r.groups@[i]).asn as i64,
    ) by {
        assert(numbers[i] == r.groups@[i].asn as i64);
        assert(numbers.to_set().contains(numbers[i]));
    }
    lemma_asn_reported_sum(r.groups@, groups);
    lemma_list_sum_total(numbers, asn_requests(groups));
}

} // verus!
