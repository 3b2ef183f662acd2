//! The sanitized summary shows which requests share a source, never a source itself: other names
//! for the sources leave it as it is.

use crate::concentration::ConcentrationModel;
use crate::focus::{FocusModel, SelectorModel};
use crate::numbers::{largest_of, median_of, ordered_keys, sorted, Ratio};
use crate::ordered::{lemma_increasing_distinct, ordered_texts, ordered_texts_lists_the_members};
use crate::permutation::{lemma_map_permuted, lemma_same_members, lemma_sorted_listing};
use crate::status::StatusCodeCounts;
use crate::sums::{lemma_list_sum_total, list_sum};
use crate::text::{text_before, text_order_is_total, text_order_is_transitive};
use crate::timeline::{
    eligible_keys, first_maximum, first_minimum, is_outcome_summary, server_error_fraction, smaller,
    success_fraction, OutcomeWindowModel, WindowedResponseOutcomeSummary,
};
use crate::tracking::{
    path_requests, source_requests, Observation, PairBookModel, PathBookModel, PathModel,
    SourceBookModel, SourceModel, TallyModel,
};
use crate::volume_laws::is_fresh;
use crate::volume_report::{
    beyond_by_source, count_positive, is_path_summary, is_summary,
    is_top_ten_share, missed_beyond_by_source, missed_segments, outcome_windows_reported, positive,
    ranked, segment_summary, top_path_reported, without_path_by_source, PathConcentrationSummary,
    RequestConcentrationSummary, SanitizedFocusSummary,
};
use vstd::prelude::*;
use vstd::relations::*;
use vstd::seq_lib::*;

verus! {

/// Every map of counts has a ranking.
pub proof fn a_ranking_exists(requests: Map<Seq<char>, nat>) -> (list: Seq<Seq<char>>)
    requires
        requests.dom().finite(),
    ensures
        ranked(list, requests),
{
    let leq = |a: Seq<char>, b: Seq<char>|
        requests[a] > requests[b] || (requests[a] == requests[b] && !text_before(b, a));
    assert(reflexive(leq)) by {
        assert forall|a: Seq<char>| #[trigger] leq(a, a) by {
            text_order_is_total(a, a);
        }
    }
    assert(antisymmetric(leq)) by {
        assert forall|a: Seq<char>, b: Seq<char>| #[trigger] leq(a, b) && #[trigger] leq(b, a) implies a
            == b by {
            text_order_is_total(a, b);
        }
    }
    assert(transitive(leq)) by {
        assert forall|a: Seq<char>, b: Seq<char>, c: Seq<char>|
            #[trigger] leq(a, b) && #[trigger] leq(b, c) implies leq(a, c) by {
            if requests[a] == requests[b] && requests[b] == requests[c] && text_before(c, a) {
                text_order_is_total(a, b);
                text_order_is_total(b, c);
                if a == b {
                } else if b == c {
                } else {
                    text_order_is_transitive(c, a, b);
                    text_order_is_total(b, c);
                }
            }
        }
    }
    assert(strongly_connected(leq)) by {
        assert forall|a: Seq<char>, b: Seq<char>| #[trigger] leq(a, b) || #[trigger] leq(b, a) by {
            text_order_is_total(a, b);
        }
    }
    let list = lemma_sorted_listing(requests.dom(), leq);
    assert forall|i: int, j: int| 0 <= i < j < list.len() implies requests[#[trigger] list[i]]
        > requests[#[trigger] list[j]] || (requests[list[i]] == requests[list[j]] && text_before(
        list[i],
        list[j],
    )) by {
        assert(leq(list[i], list[j]));
        assert(list[i] != list[j]);
        text_order_is_total(list[i], list[j]);
    }
    list
}

proof fn lemma_same_sorted(a: Seq<u64>, b: Seq<u64>)
    requires
        a.to_multiset() == b.to_multiset(),
    ensures
        a.len() == b.len(),
        sorted(a) == sorted(b),
        median_of(a) == median_of(b),
        largest_of(a) == largest_of(b),
{
    broadcast use group_to_multiset_ensures;

    let leq = |x: u64, y: u64| x <= y;
    assert(a.len() == a.to_multiset().len());
    assert(b.len() == b.to_multiset().len());
    a.lemma_sort_by_ensures(leq);
    b.lemma_sort_by_ensures(leq);
    lemma_sorted_unique(sorted(a), sorted(b), leq);
}

proof fn lemma_positive_without(values: Seq<u64>, at: int)
    requires
        0 <= at < values.len(),
    ensures
        positive(values).to_multiset() == (if values[at] > 0 {
            positive(values.remove(at)).to_multiset().insert(values[at])
        } else {
            positive(values.remove(at)).to_multiset()
        }),
    decreases values.len(),
{
    broadcast use group_to_multiset_ensures;

    let last = values.len() - 1;
    let front = values.drop_last();
    if at == last {
        assert(values.remove(at) =~= front);
    } else {
        lemma_positive_without(front, at);
        assert(values.remove(at).drop_last() =~= front.remove(at));
        assert(values.remove(at).last() == values.last());
        assert(positive(values).to_multiset() =~= (if values[at] > 0 {
            positive(values.remove(at)).to_multiset().insert(values[at])
        } else {
            positive(values.remove(at)).to_multiset()
        }));
    }
}

proof fn lemma_positive_permuted(a: Seq<u64>, b: Seq<u64>)
    requires
        a.to_multiset() == b.to_multiset(),
    ensures
        positive(a).to_multiset() == positive(b).to_multiset(),
    decreases a.len(),
{
    broadcast use group_to_multiset_ensures;

    assert(a.len() == a.to_multiset().len());
    assert(b.len() == b.to_multiset().len());
    if a.len() > 0 {
        let last = a.len() - 1;
        let x = a[last];
        assert(a.contains(x));
        assert(b.to_multiset().count(x) > 0);
        assert(b.contains(x));
        let at = b.index_of(x);
        assert(b[at] == x);
        to_multiset_remove(a, last);
        to_multiset_remove(b, at);
        lemma_positive_permuted(a.remove(last), b.remove(at));
        lemma_positive_without(a, last);
        lemma_positive_without(b, at);
    } else {
        assert(a =~= b);
    }
}

/// One where a count is above zero.
spec fn signs(counts: Map<Seq<char>, nat>) -> Map<Seq<char>, nat> {
    counts.map_values(
        |n: nat|
            if n > 0 {
                1nat
            } else {
                0nat
            },
    )
}

proof fn lemma_count_is_sum(keys: Seq<Seq<char>>, counts: Map<Seq<char>, nat>)
    requires
        forall|i: int| 0 <= i < keys.len() ==> counts.dom().contains(#[trigger] keys[i]),
    ensures
        count_positive(keys, counts) == list_sum(keys, signs(counts)),
    decreases keys.len(),
{
    if keys.len() > 0 {
        assert forall|i: int| 0 <= i < keys.drop_last().len() implies counts.dom().contains(
            #[trigger] keys.drop_last()[i],
        ) by {
            assert(keys[i] == keys.drop_last()[i]);
        }
        lemma_count_is_sum(keys.drop_last(), counts);
        assert(keys[keys.len() - 1] == keys.last());
    }
}

/// Whether a map is another one with other names for its keys.
pub open spec fn renames<V>(
    a: Map<Seq<char>, V>,
    b: Map<Seq<char>, V>,
    f: spec_fn(Seq<char>) -> Seq<char>,
) -> bool {
    &&& a.dom().finite()
    &&& b.dom() == a.dom().map(f)
    &&& forall|k: Seq<char>| #[trigger] a.dom().contains(k) ==> b[f(k)] == a[k]
}

proof fn lemma_renamed_keys<V>(
    a: Map<Seq<char>, V>,
    b: Map<Seq<char>, V>,
    f: spec_fn(Seq<char>) -> Seq<char>,
    k: Seq<char>,
)
    requires
        injective(f),
        renames(a, b, f),
    ensures
        b.dom().finite(),
        a.dom().len() == b.dom().len(),
        a.dom().contains(k) == b.dom().contains(f(k)),
{
    vstd::set_lib::lemma_map_size(a.dom(), b.dom(), f);
    if b.dom().contains(f(k)) {
        let x = choose|x: Seq<char>| a.dom().contains(x) && f(x) == f(k);
        assert(x == k);
    }
}

proof fn lemma_renamed_insert<V>(
    a: Map<Seq<char>, V>,
    b: Map<Seq<char>, V>,
    f: spec_fn(Seq<char>) -> Seq<char>,
    k: Seq<char>,
    v: V,
)
    requires
        injective(f),
        renames(a, b, f),
    ensures
        renames(a.insert(k, v), b.insert(f(k), v), f),
{
    let (c, d) = (a.insert(k, v), b.insert(f(k), v));
    assert(d.dom() =~= c.dom().map(f)) by {
        assert forall|y: Seq<char>| d.dom().contains(y) == c.dom().map(f).contains(y) by {
            if d.dom().contains(y) {
                if y == f(k) {
                    assert(c.dom().contains(k));
                } else {
                    let x = choose|x: Seq<char>| a.dom().contains(x) && f(x) == y;
                    assert(c.dom().contains(x));
                }
            }
            if c.dom().map(f).contains(y) {
                let x = choose|x: Seq<char>| c.dom().contains(x) && f(x) == y;
                if x != k {
                    assert(a.dom().contains(x));
                    assert(a.dom().map(f).contains(f(x)));
                }
            }
        }
    }
    assert forall|x: Seq<char>| #[trigger] c.dom().contains(x) implies d[f(x)] == c[x] by {
        if x != k {
            assert(a.dom().contains(x));
            assert(f(x) != f(k));
        }
    }
}

/// A request with another name for its source.
pub open spec fn renamed(o: Observation, f: spec_fn(Seq<char>) -> Seq<char>) -> Observation {
    Observation {
        source: match o.source {
            Some(source) => Some(f(source)),
            None => None,
        },
        ..o
    }
}

/// Requests with other names for their sources.
pub open spec fn renamed_all(
    list: Seq<Observation>,
    f: spec_fn(Seq<char>) -> Seq<char>,
) -> Seq<Observation> {
    list.map_values(|o: Observation| renamed(o, f))
}

spec fn path_renamed(a: PathModel, b: PathModel, f: spec_fn(Seq<char>) -> Seq<char>) -> bool {
    &&& a.sources.finite()
    &&& b == (PathModel { sources: a.sources.map(f), ..a })
}

spec fn paths_renamed(
    a: PathBookModel,
    b: PathBookModel,
    f: spec_fn(Seq<char>) -> Seq<char>,
) -> bool {
    &&& a.beyond == b.beyond
    &&& a.missing == b.missing
    &&& a.paths.dom().finite()
    &&& a.paths.dom() == b.paths.dom()
    &&& forall|p: Seq<char>| #[trigger]
        a.paths.dom().contains(p) ==> path_renamed(a.paths[p], b.paths[p], f)
}

spec fn sources_renamed(
    a: SourceBookModel,
    b: SourceBookModel,
    f: spec_fn(Seq<char>) -> Seq<char>,
) -> bool {
    &&& a.beyond == b.beyond
    &&& a.missing == b.missing
    &&& renames(a.sources, b.sources, f)
}

spec fn pairs_renamed(
    a: PairBookModel,
    b: PairBookModel,
    f: spec_fn(Seq<char>) -> Seq<char>,
) -> bool {
    &&& a.beyond == b.beyond
    &&& a.count == b.count
    &&& forall|s: Seq<char>| b.paths_of(#[trigger] f(s)) == a.paths_of(s)
}

spec fn focus_renamed(a: FocusModel, b: FocusModel, f: spec_fn(Seq<char>) -> Seq<char>) -> bool {
    &&& b == (FocusModel { sources: b.sources, ..a })
    &&& renames(a.sources, b.sources, f)
}

/// Whether two states differ in the names of the sources only.
spec fn state_renamed(
    a: ConcentrationModel,
    b: ConcentrationModel,
    f: spec_fn(Seq<char>) -> Seq<char>,
) -> bool {
    &&& b == (ConcentrationModel {
        paths: b.paths,
        sources: b.sources,
        pairs: b.pairs,
        focused: b.focused,
        ..a
    })
    &&& paths_renamed(a.paths, b.paths, f)
    &&& sources_renamed(a.sources, b.sources, f)
    &&& pairs_renamed(a.pairs, b.pairs, f)
    &&& focus_renamed(a.focused, b.focused, f)
}

proof fn lemma_set_insert(s: Set<Seq<char>>, x: Seq<char>, f: spec_fn(Seq<char>) -> Seq<char>)
    ensures
        s.insert(x).map(f) == s.map(f).insert(f(x)),
{
    let (a, b) = (s.insert(x).map(f), s.map(f).insert(f(x)));
    assert forall|y: Seq<char>| a.contains(y) == b.contains(y) by {
        if a.contains(y) {
            let z = choose|z: Seq<char>| s.insert(x).contains(z) && f(z) == y;
            if z != x {
                assert(s.contains(z));
                assert(s.map(f).contains(f(z)));
            }
        }
        if b.contains(y) {
            if y == f(x) {
                assert(s.insert(x).contains(x));
            } else {
                let z = choose|z: Seq<char>| s.contains(z) && f(z) == y;
                assert(s.insert(x).contains(z));
            }
        }
    }
    assert(a =~= b);
}

proof fn lemma_paths_step(
    a: ConcentrationModel,
    b: ConcentrationModel,
    o: Observation,
    f: spec_fn(Seq<char>) -> Seq<char>,
    admitted: bool,
)
    requires
        injective(f),
        state_renamed(a, b, f),
    ensures
        paths_renamed(
            a.paths.observed(o, admitted, a.response_bytes_available, a.limits),
            b.paths.observed(renamed(o, f), admitted, a.response_bytes_available, a.limits),
            f,
        ),
{
    let x = a.paths.observed(o, admitted, a.response_bytes_available, a.limits);
    let y = b.paths.observed(renamed(o, f), admitted, a.response_bytes_available, a.limits);
    if let Some(path) = o.path {
        if a.paths.admits(path, a.limits.max_paths as nat) {
            let was = if a.paths.paths.dom().contains(path) {
                a.paths.paths[path]
            } else {
                PathModel::none()
            };
            let now = if b.paths.paths.dom().contains(path) {
                b.paths.paths[path]
            } else {
                PathModel::none()
            };
            assert(path_renamed(was, now, f)) by {
                if !a.paths.paths.dom().contains(path) {
                    assert(was.sources.map(f) =~= now.sources);
                }
            }
            if admitted && o.source is Some {
                lemma_set_insert(was.sources, o.source.unwrap(), f);
            }
            assert(path_renamed(x.paths[path], y.paths[path], f));
            assert(x.paths.dom() =~= y.paths.dom());
            assert forall|p: Seq<char>| #[trigger] x.paths.dom().contains(p) implies path_renamed(
                x.paths[p],
                y.paths[p],
                f,
            ) by {
                if p != path {
                    assert(a.paths.paths.dom().contains(p));
                }
            }
        }
    }
}

proof fn lemma_pairs_step(
    a: PairBookModel,
    b: PairBookModel,
    source: Seq<char>,
    path: Seq<char>,
    maximum: nat,
    f: spec_fn(Seq<char>) -> Seq<char>,
)
    requires
        injective(f),
        pairs_renamed(a, b, f),
    ensures
        pairs_renamed(
            a.paired(source, path, maximum),
            b.paired(f(source), path, maximum),
            f,
        ),
{
    let (x, y) = (a.paired(source, path, maximum), b.paired(f(source), path, maximum));
    assert(b.paths_of(f(source)) == a.paths_of(source));
    assert forall|s: Seq<char>| y.paths_of(#[trigger] f(s)) == x.paths_of(s) by {
        assert(b.paths_of(f(s)) == a.paths_of(s));
        if s != source {
            assert(f(s) != f(source));
        }
    }
}

proof fn lemma_focus_step(
    a: ConcentrationModel,
    b: ConcentrationModel,
    o: Observation,
    f: spec_fn(Seq<char>) -> Seq<char>,
    track_paths: bool,
)
    requires
        injective(f),
        state_renamed(a, b, f),
    ensures
        focus_renamed(
            a.focused.observed(o, track_paths, a.limits),
            b.focused.observed(renamed(o, f), track_paths, a.limits),
            f,
        ),
{
    let p = renamed(o, f);
    let (m, n) = (a.focused, b.focused);
    let x = m.observed(o, track_paths, a.limits);
    let y = n.observed(p, track_paths, a.limits);
    if let Some(source) = o.source {
        lemma_renamed_keys(m.sources, n.sources, f, source);
        lemma_renamed_insert(m.sources, n.sources, f, source, x.sources[source]);
    }
    assert(renames(x.sources, y.sources, f));
    assert(y == (FocusModel { sources: y.sources, ..x }));
}

proof fn lemma_step(
    a: ConcentrationModel,
    b: ConcentrationModel,
    o: Observation,
    f: spec_fn(Seq<char>) -> Seq<char>,
)
    requires
        injective(f),
        state_renamed(a, b, f),
        !(a.focus matches Some(SelectorModel::SourceIp(_))),
    ensures
        state_renamed(a.observed(o), b.observed(renamed(o, f)), f),
{
    let p = renamed(o, f);
    let (x, y) = (a.observed(o), b.observed(p));
    if let Some(source) = o.source {
        lemma_renamed_keys(a.sources.sources, b.sources.sources, f, source);
        lemma_renamed_insert(
            a.sources.sources,
            b.sources.sources,
            f,
            source,
            x.sources.sources[source],
        );
    }
    assert(sources_renamed(x.sources, y.sources, f));
    let admitted = o.source matches Some(s) && a.sources.admits(
        s,
        a.limits.max_source_ips as nat,
    );
    lemma_paths_step(a, b, o, f, admitted);
    assert(paths_renamed(x.paths, y.paths, f));
    if o.path is Some && o.source is Some {
        lemma_renamed_keys(x.sources.sources, y.sources.sources, f, o.source.unwrap());
        lemma_pairs_step(
            a.pairs,
            b.pairs,
            o.source.unwrap(),
            o.path.unwrap(),
            a.limits.max_source_path_pairs as nat,
            f,
        );
    }
    assert(pairs_renamed(x.pairs, y.pairs, f));
    assert(a.selected(o) == b.selected(p));
    if a.selected(o) {
        lemma_focus_step(a, b, o, f, !(a.focus.unwrap() is ExactPath));
    }
    assert(focus_renamed(x.focused, y.focused, f));
}

proof fn lemma_states(
    m: ConcentrationModel,
    list: Seq<Observation>,
    f: spec_fn(Seq<char>) -> Seq<char>,
)
    requires
        injective(f),
        starts_empty(m),
        !(m.focus matches Some(SelectorModel::SourceIp(_))),
    ensures
        state_renamed(m.observed_all(list), m.observed_all(renamed_all(list, f)), f),
        m.observed_all(list).focus == m.focus,
    decreases list.len(),
{
    let other = renamed_all(list, f);
    if list.len() == 0 {
        assert(m.sources.sources.dom().map(f) =~= Set::<Seq<char>>::empty());
        assert(m.focused.sources.dom().map(f) =~= Set::<Seq<char>>::empty());
        assert(other.len() == 0);
    } else {
        lemma_states(m, list.drop_last(), f);
        assert(other.drop_last() =~= renamed_all(list.drop_last(), f));
        lemma_step(
            m.observed_all(list.drop_last()),
            m.observed_all(other.drop_last()),
            list.last(),
            f,
        );
        assert(other.last() == renamed(list.last(), f));
    }
}

/// Whether nothing has been observed, in the focus neither.
pub open spec fn starts_empty(m: ConcentrationModel) -> bool {
    &&& is_fresh(m)
    &&& m.pairs == PairBookModel::none()
    &&& m.focused.sources == Map::<Seq<char>, TallyModel>::empty()
}

/// Whether code counts say the same.
pub open spec fn same_codes(a: Option<StatusCodeCounts>, b: Option<StatusCodeCounts>) -> bool {
    match (a, b) {
        (Some(x), Some(y)) => x@ == y@,
        (None, None) => true,
        _ => false,
    }
}

/// Whether path summaries say the same.
pub open spec fn same_path_summary(a: PathConcentrationSummary, b: PathConcentrationSummary) -> bool {
    &&& same_codes(a.response_status_codes, b.response_status_codes)
    &&& a == (PathConcentrationSummary { response_status_codes: a.response_status_codes, ..b })
}

/// Whether sanitized summaries of a focus say the same.
pub open spec fn same_focus(a: SanitizedFocusSummary, b: SanitizedFocusSummary) -> bool {
    &&& a.focus_kind@ == b.focus_kind@
    &&& a.request_rates@ == b.request_rates@
    &&& a == (SanitizedFocusSummary {
        focus_kind: a.focus_kind,
        request_rates: a.request_rates,
        ..b
    })
}

/// Whether summaries say the same.
pub open spec fn same_summary(
    a: RequestConcentrationSummary,
    b: RequestConcentrationSummary,
) -> bool {
    &&& match (a.top_path, b.top_path) {
        (Some(x), Some(y)) => same_path_summary(x, y),
        (None, None) => true,
        _ => false,
    }
    &&& a.request_rates@ == b.request_rates@
    &&& match (a.response_outcome_windows, b.response_outcome_windows) {
        (Some(x), Some(y)) => x@ == y@,
        (None, None) => true,
        _ => false,
    }
    &&& same_codes(a.response_status_codes, b.response_status_codes)
    &&& match (a.focus, b.focus) {
        (Some(x), Some(y)) => same_focus(x, y),
        (None, None) => true,
        _ => false,
    }
    &&& a == (RequestConcentrationSummary {
        top_path: a.top_path,
        request_rates: a.request_rates,
        response_outcome_windows: a.response_outcome_windows,
        response_status_codes: a.response_status_codes,
        focus: a.focus,
        ..b
    })
}

proof fn lemma_sums_renamed(
    keys: Seq<Seq<char>>,
    a: Map<Seq<char>, nat>,
    b: Map<Seq<char>, nat>,
    f: spec_fn(Seq<char>) -> Seq<char>,
)
    requires
        forall|i: int| 0 <= i < keys.len() ==> a[#[trigger] keys[i]] == b[f(keys[i])],
    ensures
        list_sum(keys, a) == list_sum(keys.map_values(f), b),
    decreases keys.len(),
{
    let other = keys.map_values(f);
    if keys.len() > 0 {
        assert forall|i: int| 0 <= i < keys.drop_last().len() implies a[#[trigger] keys.drop_last()[i]]
            == b[f(keys.drop_last()[i])] by {
            assert(keys[i] == keys.drop_last()[i]);
        }
        lemma_sums_renamed(keys.drop_last(), a, b, f);
        assert(other.drop_last() =~= keys.drop_last().map_values(f));
        assert(keys[keys.len() - 1] == keys.last());
    }
}

/// The keys of a renamed map, in any order, are the renamed keys in another.
proof fn lemma_listings<V>(
    a: Map<Seq<char>, V>,
    b: Map<Seq<char>, V>,
    f: spec_fn(Seq<char>) -> Seq<char>,
    keys: Seq<Seq<char>>,
    others: Seq<Seq<char>>,
)
    requires
        injective(f),
        renames(a, b, f),
        keys.no_duplicates(),
        keys.to_set() == a.dom(),
        others.no_duplicates(),
        others.to_set() == b.dom(),
    ensures
        b.dom().finite(),
        keys.map_values(f).no_duplicates(),
        keys.map_values(f).to_set() == b.dom(),
        keys.map_values(f).to_multiset() == others.to_multiset(),
        keys.len() == others.len(),
{
    broadcast use group_to_multiset_ensures;

    let named = keys.map_values(f);
    lemma_renamed_keys(a, b, f, Seq::empty());
    keys.lemma_no_duplicates_injective(f);
    assert(named.to_set() =~= b.dom()) by {
        assert forall|y: Seq<char>| named.to_set().contains(y) == b.dom().contains(y) by {
            if named.to_set().contains(y) {
                let i = named.index_of(y);
                assert(named[i] == y);
                assert(keys.to_set().contains(keys[i]));
                assert(a.dom().map(f).contains(f(keys[i])));
            }
            if b.dom().contains(y) {
                let x = choose|x: Seq<char>| a.dom().contains(x) && f(x) == y;
                assert(keys.to_set().contains(x));
                let i = keys.index_of(x);
                assert(named[i] == y);
            }
        }
    }
    lemma_same_members(named, others);
    assert(named.len() == named.to_multiset().len());
    assert(others.len() == others.to_multiset().len());
}

proof fn lemma_totals_renamed(
    a: Map<Seq<char>, nat>,
    b: Map<Seq<char>, nat>,
    f: spec_fn(Seq<char>) -> Seq<char>,
    keys: Seq<Seq<char>>,
    others: Seq<Seq<char>>,
)
    requires
        injective(f),
        renames(a, b, f),
        keys.no_duplicates(),
        keys.to_set() == a.dom(),
        others.no_duplicates(),
        others.to_set() == b.dom(),
    ensures
        list_sum(keys, a) == list_sum(others, b),
        count_positive(keys, a) == count_positive(others, b),
{
    let named = keys.map_values(f);
    lemma_listings(a, b, f, keys, others);
    assert forall|i: int| 0 <= i < keys.len() implies a.dom().contains(#[trigger] keys[i]) && a[keys[i]]
        == b[f(keys[i])] by {
        assert(keys.to_set().contains(keys[i]));
    }
    assert forall|i: int| 0 <= i < others.len() implies b.dom().contains(#[trigger] others[i]) by {
        assert(others.to_set().contains(others[i]));
    }
    lemma_sums_renamed(keys, a, b, f);
    lemma_list_sum_total(named, b);
    lemma_list_sum_total(others, b);
    lemma_count_is_sum(keys, a);
    lemma_count_is_sum(others, b);
    let (p, q) = (signs(a), signs(b));
    assert(q.dom() =~= b.dom());
    assert forall|i: int| 0 <= i < keys.len() implies p[#[trigger] keys[i]] == q[f(keys[i])] by {
        assert(a.dom().contains(keys[i]));
        assert(b.dom().contains(f(keys[i]))) by {
            assert(named[i] == f(keys[i]));
            assert(named.to_set().contains(named[i]));
        }
    }
    lemma_sums_renamed(keys, p, q, f);
    lemma_list_sum_total(named, q);
    lemma_list_sum_total(others, q);
}

proof fn lemma_maps_renamed(
    a: Map<Seq<char>, SourceModel>,
    b: Map<Seq<char>, SourceModel>,
    f: spec_fn(Seq<char>) -> Seq<char>,
)
    requires
        injective(f),
        renames(a, b, f),
    ensures
        renames(beyond_by_source(a), beyond_by_source(b), f),
        renames(missed_beyond_by_source(a), missed_beyond_by_source(b), f),
        renames(without_path_by_source(a), without_path_by_source(b), f),
        renames(source_requests(a), source_requests(b), f),
{
    assert(beyond_by_source(a).dom() =~= a.dom());
    assert(beyond_by_source(b).dom() =~= b.dom());
    assert(missed_beyond_by_source(a).dom() =~= a.dom());
    assert(missed_beyond_by_source(b).dom() =~= b.dom());
    assert(without_path_by_source(a).dom() =~= a.dom());
    assert(without_path_by_source(b).dom() =~= b.dom());
    assert(source_requests(a).dom() =~= a.dom());
    assert(source_requests(b).dom() =~= b.dom());
    assert forall|k: Seq<char>| #[trigger] a.dom().contains(k) implies b.dom().contains(f(k)) by {
        assert(a.dom().map(f).contains(f(k)));
    }
}

proof fn lemma_segments_renamed(
    a: ConcentrationModel,
    b: ConcentrationModel,
    f: spec_fn(Seq<char>) -> Seq<char>,
)
    requires
        injective(f),
        state_renamed(a, b, f),
    ensures
        segment_summary(a) == segment_summary(b),
{
    let (s, t) = (a.sources.sources, b.sources.sources);
    lemma_renamed_keys(s, t, f, Seq::empty());
    let (keys, others) = (ordered_texts(s.dom()), ordered_texts(t.dom()));
    ordered_texts_lists_the_members(s.dom());
    ordered_texts_lists_the_members(t.dom());
    lemma_increasing_distinct(keys);
    lemma_increasing_distinct(others);
    lemma_listings(s, t, f, keys, others);
    let named = keys.map_values(f);
    let size = |k: Seq<char>| t[k].segments_404.len() as u64;
    lemma_map_permuted(named, others, size);
    assert(missed_segments(others, t) =~= others.map_values(size));
    assert(missed_segments(keys, s) =~= named.map_values(size)) by {
        assert forall|i: int| 0 <= i < keys.len() implies s[#[trigger] keys[i]] == t[f(keys[i])] by {
            assert(keys.to_set().contains(keys[i]));
            assert(s.dom().contains(keys[i]));
        }
    }
    let (x, y) = (missed_segments(keys, s), missed_segments(others, t));
    lemma_same_sorted(x, y);
    lemma_positive_permuted(x, y);
    lemma_same_sorted(positive(x), positive(y));
    lemma_maps_renamed(s, t, f);
    assert(beyond_by_source(s).dom() =~= s.dom());
    assert(beyond_by_source(t).dom() =~= t.dom());
    assert(missed_beyond_by_source(s).dom() =~= s.dom());
    assert(missed_beyond_by_source(t).dom() =~= t.dom());
    assert(without_path_by_source(s).dom() =~= s.dom());
    assert(without_path_by_source(t).dom() =~= t.dom());
    lemma_totals_renamed(beyond_by_source(s), beyond_by_source(t), f, keys, others);
    lemma_totals_renamed(missed_beyond_by_source(s), missed_beyond_by_source(t), f, keys, others);
    lemma_totals_renamed(without_path_by_source(s), without_path_by_source(t), f, keys, others);
}

proof fn lemma_same_prefix_sum(
    a: Seq<Seq<char>>,
    b: Seq<Seq<char>>,
    p: Map<Seq<char>, nat>,
    q: Map<Seq<char>, nat>,
)
    requires
        a.len() == b.len(),
        forall|i: int| 0 <= i < a.len() ==> p[#[trigger] a[i]] == q[b[i]],
    ensures
        list_sum(a, p) == list_sum(b, q),
    decreases a.len(),
{
    if a.len() > 0 {
        assert forall|i: int| 0 <= i < a.drop_last().len() implies p[#[trigger] a.drop_last()[i]]
            == q[b.drop_last()[i]] by {
            assert(a[i] == a.drop_last()[i]);
        }
        lemma_same_prefix_sum(a.drop_last(), b.drop_last(), p, q);
        assert(a[a.len() - 1] == a.last());
    }
}

proof fn lemma_rankings_renamed(
    p: Map<Seq<char>, nat>,
    q: Map<Seq<char>, nat>,
    f: spec_fn(Seq<char>) -> Seq<char>,
    a: Seq<Seq<char>>,
    b: Seq<Seq<char>>,
)
    requires
        injective(f),
        renames(p, q, f),
        ranked(a, p),
        ranked(b, q),
    ensures
        a.len() == b.len(),
        forall|i: int| 0 <= i < a.len() ==> p[#[trigger] a[i]] == q[b[i]],
{
    lemma_listings(p, q, f, a, b);
    let named = a.map_values(f);
    let count = |k: Seq<char>| q[k];
    lemma_map_permuted(named, b, count);
    let (x, y) = (named.map_values(count), b.map_values(count));
    let leq = |m: nat, n: nat| m >= n;
    assert forall|i: int| 0 <= i < a.len() implies p[#[trigger] a[i]] == x[i] by {
        assert(a.to_set().contains(a[i]));
        assert(p.dom().contains(a[i]));
    }
    assert(sorted_by(x, leq)) by {
        assert forall|i: int, j: int| 0 <= i < j < x.len() implies #[trigger] leq(x[i], x[j]) by {
            assert(p[a[i]] == x[i] && p[a[j]] == x[j]);
        }
    }
    assert(sorted_by(y, leq)) by {
        assert forall|i: int, j: int| 0 <= i < j < y.len() implies #[trigger] leq(y[i], y[j]) by {
            assert(q[b[i]] == y[i] && q[b[j]] == y[j]);
        }
    }
    lemma_sorted_unique(x, y, leq);
    assert forall|i: int| 0 <= i < a.len() implies p[#[trigger] a[i]] == q[b[i]] by {
        assert(x[i] == y[i]);
    }
}

proof fn lemma_top_ten_renamed(
    x: Ratio,
    y: Ratio,
    p: Map<Seq<char>, nat>,
    q: Map<Seq<char>, nat>,
    total: nat,
    f: spec_fn(Seq<char>) -> Seq<char>,
)
    requires
        injective(f),
        renames(p, q, f),
        is_top_ten_share(x, p, total),
        is_top_ten_share(y, q, total),
    ensures
        x == y,
{
    lemma_renamed_keys(p, q, f, Seq::empty());
    let a = a_ranking_exists(p);
    let b = a_ranking_exists(q);
    lemma_rankings_renamed(p, q, f, a, b);
    let n = if a.len() < 10 {
        a.len() as int
    } else {
        10
    };
    assert forall|i: int| 0 <= i < a.take(n).len() implies p[#[trigger] a.take(n)[i]] == q[b.take(
        n,
    )[i]] by {
        assert(p[a[i]] == q[b[i]]);
    }
    lemma_same_prefix_sum(a.take(n), b.take(n), p, q);
}

proof fn lemma_outcomes_are_determined(
    a: WindowedResponseOutcomeSummary,
    b: WindowedResponseOutcomeSummary,
    window: OutcomeWindowModel,
    minimum: u64,
    percent: u8,
    without_timestamp: u64,
)
    requires
        is_outcome_summary(a, window, minimum, percent, without_timestamp),
        is_outcome_summary(b, window, minimum, percent, without_timestamp),
    ensures
        a == b,
{
    let keys = eligible_keys(ordered_keys(window.outcomes.dom()), window.outcomes, minimum);
    if keys.len() > 0 {
        assert forall|i: int, j: int|
            #[trigger] first_minimum(keys, window.outcomes, i) && #[trigger] first_minimum(
                keys,
                window.outcomes,
                j,
            ) implies i == j by {
            if i < j {
                assert(smaller(
                    success_fraction(window.outcomes[keys[j]]),
                    success_fraction(window.outcomes[keys[i]]),
                ));
            }
            if j < i {
                assert(smaller(
                    success_fraction(window.outcomes[keys[i]]),
                    success_fraction(window.outcomes[keys[j]]),
                ));
            }
        }
        assert forall|i: int, j: int|
            #[trigger] first_maximum(keys, window.outcomes, i) && #[trigger] first_maximum(
                keys,
                window.outcomes,
                j,
            ) implies i == j by {
            if i < j {
                assert(smaller(
                    server_error_fraction(window.outcomes[keys[i]]),
                    server_error_fraction(window.outcomes[keys[j]]),
                ));
            }
            if j < i {
                assert(smaller(
                    server_error_fraction(window.outcomes[keys[j]]),
                    server_error_fraction(window.outcomes[keys[i]]),
                ));
            }
        }
    }
}

proof fn lemma_windows_are_determined(
    a: Option<Vec<WindowedResponseOutcomeSummary>>,
    b: Option<Vec<WindowedResponseOutcomeSummary>>,
    m: ConcentrationModel,
    n: ConcentrationModel,
)
    requires
        outcome_windows_reported(a, m),
        outcome_windows_reported(b, n),
        n.clock == m.clock,
        n.status_available == m.status_available,
        n.response_bucket_minimum_requests == m.response_bucket_minimum_requests,
        n.response_success_share_threshold_percent == m.response_success_share_threshold_percent,
    ensures
        match (a, b) {
            (Some(x), Some(y)) => x@ == y@,
            (None, None) => true,
            _ => false,
        },
{
    if a is Some && b is Some {
        let (x, y) = (a.unwrap()@, b.unwrap()@);
        assert forall|i: int| 0 <= i < x.len() implies #[trigger] x[i] == y[i] by {
            lemma_outcomes_are_determined(
                x[i],
                y[i],
                m.clock.windows[i],
                m.response_bucket_minimum_requests,
                m.response_success_share_threshold_percent,
                m.clock.without_timestamp as u64,
            );
        }
        assert(x =~= y);
    }
}

proof fn lemma_top_path_renamed(
    x: Option<PathConcentrationSummary>,
    y: Option<PathConcentrationSummary>,
    a: ConcentrationModel,
    b: ConcentrationModel,
    f: spec_fn(Seq<char>) -> Seq<char>,
)
    requires
        injective(f),
        state_renamed(a, b, f),
        top_path_reported(x, a),
        top_path_reported(y, b),
    ensures
        match (x, y) {
            (Some(p), Some(q)) => same_path_summary(p, q),
            (None, None) => true,
            _ => false,
        },
{
    if x is Some && y is Some {
        let requests = path_requests(a.paths.paths);
        assert(requests =~= path_requests(b.paths.paths)) by {
            assert forall|p: Seq<char>| a.paths.paths.dom().contains(p) implies path_renamed(
                a.paths.paths[p],
                b.paths.paths[p],
                f,
            ) by {}
        }
        assert(requests.dom() =~= a.paths.paths.dom());
        let list = a_ranking_exists(requests);
        list.unique_seq_to_set();
        let top = list[0];
        assert(list.to_set().contains(top));
        assert(a.paths.paths.dom().contains(top));
        let (p, q) = (a.paths.paths[top], b.paths.paths[top]);
        assert(path_renamed(p, q, f));
        vstd::set_lib::lemma_map_size(p.sources, q.sources, f);
        assert(is_path_summary(x.unwrap(), p, a));
        assert(is_path_summary(y.unwrap(), q, b));
    }
}

/// Other names for the sources leave the summary as it is, unless the focus is on sources: it
/// shows which requests share a source, never the source.
pub proof fn summaries_show_no_source(
    m: ConcentrationModel,
    list: Seq<Observation>,
    f: spec_fn(Seq<char>) -> Seq<char>,
    x: RequestConcentrationSummary,
    y: RequestConcentrationSummary,
)
    requires
        injective(f),
        starts_empty(m),
        !(m.focus matches Some(SelectorModel::SourceIp(_))),
        is_summary(x, m.observed_all(list)),
        is_summary(y, m.observed_all(renamed_all(list, f))),
    ensures
        same_summary(x, y),
{
    let a = m.observed_all(list);
    let b = m.observed_all(renamed_all(list, f));
    lemma_states(m, list, f);
    lemma_segments_renamed(a, b, f);
    lemma_renamed_keys(a.sources.sources, b.sources.sources, f, Seq::empty());
    lemma_top_path_renamed(x.top_path, y.top_path, a, b, f);
    lemma_maps_renamed(a.sources.sources, b.sources.sources, f);
    lemma_top_ten_renamed(
        x.top_ten_source_ips_request_share,
        y.top_ten_source_ips_request_share,
        source_requests(a.sources.sources),
        source_requests(b.sources.sources),
        a.tally.requests,
        f,
    );
    assert(path_requests(a.paths.paths) =~= path_requests(b.paths.paths)) by {
        assert forall|p: Seq<char>| a.paths.paths.dom().contains(p) implies path_renamed(
            a.paths.paths[p],
            b.paths.paths[p],
            f,
        ) by {}
    }
    assert(path_requests(a.paths.paths).dom() =~= a.paths.paths.dom());
    let ranking = a_ranking_exists(path_requests(a.paths.paths));
    assert(ranked(ranking, path_requests(b.paths.paths)));
    assert(x.top_ten_paths_request_share == y.top_ten_paths_request_share);
    lemma_windows_are_determined(x.response_outcome_windows, y.response_outcome_windows, a, b);
    if m.focus is Some {
        lemma_renamed_keys(a.focused.sources, b.focused.sources, f, Seq::empty());
        assert(same_focus(x.focus.unwrap(), y.focus.unwrap()));
    }
}

} // verus!
