//! What holds of the key names of queries, and of what is kept of them.

use crate::concentration::{kept_paths_are_exact, requests_for, ConcentrationModel};
use crate::ordered::{
    increasing, lemma_increasing_distinct, ordered_texts, ordered_texts_lists_the_members,
};
use crate::text::{lemma_first_of_unique, split_on, texts};
use crate::text_laws::{a_text_without_the_character_is_one_piece, pieces_of_joined_texts};
use crate::tracking::{
    key_name, key_names, names_of, path_requests, retained_all, Observation, PathBookModel,
    QueryModel,
};
use crate::volume_report::{is_private_report, path_names, PrivateRequestConcentrationReport};
use vstd::prelude::*;

verus! {

proof fn lemma_names_joined(a: Seq<Seq<char>>, b: Seq<Seq<char>>)
    ensures
        names_of(a + b) == names_of(a) + names_of(b),
    decreases b.len(),
{
    if b.len() == 0 {
        assert(a + b =~= a);
        assert(names_of(a) + names_of(b) =~= names_of(a));
    } else {
        lemma_names_joined(a, b.drop_last());
        assert((a + b).drop_last() =~= a + b.drop_last());
        assert((a + b).last() == b.last());
        assert(names_of(a + b) =~= names_of(a) + names_of(b));
    }
}

/// The key names of two queries with an ampersand between them are those of the first, followed
/// by those of the second.
pub proof fn an_ampersand_joins_queries(x: Seq<char>, y: Seq<char>)
    ensures
        key_names(x + seq!['&'] + y) == key_names(x) + key_names(y),
{
    pieces_of_joined_texts(x, '&', y);
    lemma_names_joined(split_on(x, '&'), split_on(y, '&'));
}

proof fn lemma_one_component(s: Seq<char>)
    requires
        !s.contains('&'),
    ensures
        key_names(s) == (if key_name(s).len() == 0 {
            Seq::<Seq<char>>::empty()
        } else {
            seq![key_name(s)]
        }),
{
    a_text_without_the_character_is_one_piece(s, '&');
    let one = split_on(s, '&');
    assert(one =~= seq![s]);
    assert(one.drop_last() =~= Seq::<Seq<char>>::empty());
    reveal_with_fuel(names_of, 2);
    assert(key_names(s) =~= if key_name(s).len() == 0 {
        Seq::<Seq<char>>::empty()
    } else {
        seq![key_name(s)]
    });
}

/// A query of one component has the name before its first equals sign as its key, whatever the
/// value is, and a component without an equals sign is all name. One whose name is empty has no
/// key.
pub proof fn a_component_has_its_name(name: Seq<char>, value: Seq<char>)
    requires
        !name.contains('&'),
        !name.contains('='),
        !value.contains('&'),
    ensures
        name.len() > 0 ==> key_names(name + seq!['='] + value) == seq![name],
        name.len() > 0 ==> key_names(name) == seq![name],
        key_names(seq!['='] + value) == Seq::<Seq<char>>::empty(),
        key_names(Seq::<char>::empty()) == Seq::<Seq<char>>::empty(),
{
    let s = name + seq!['='] + value;
    assert forall|j: int| 0 <= j < name.len() implies name[j] != '=' && name[j] != '&' by {
        assert(name.contains(name[j]));
    }
    assert forall|j: int| 0 <= j < value.len() implies value[j] != '&' by {
        assert(value.contains(value[j]));
    }
    assert(s[name.len() as int] == '=');
    assert forall|j: int| 0 <= j < name.len() implies s[j] != '=' by {
        assert(s[j] == name[j]);
    }
    lemma_first_of_unique(s, '=', name.len() as int);
    assert(key_name(s) =~= name);
    lemma_one_component(s);
    lemma_first_of_unique(name, '=', name.len() as int);
    assert(key_name(name) =~= name);
    lemma_one_component(name);
    let bare = seq!['='] + value;
    assert(bare[0] == '=');
    lemma_first_of_unique(bare, '=', 0);
    lemma_one_component(bare);
    let none = Seq::<char>::empty();
    lemma_first_of_unique(none, '=', 0);
    lemma_one_component(none);
}

/// Two pairs of a name and a value, with an ampersand between them, have exactly the two names as
/// their keys.
pub proof fn two_pairs_have_two_names(a: Seq<char>, v: Seq<char>, b: Seq<char>, w: Seq<char>)
    requires
        a.len() > 0,
        b.len() > 0,
        !a.contains('&'),
        !a.contains('='),
        !b.contains('&'),
        !b.contains('='),
        !v.contains('&'),
        !w.contains('&'),
    ensures
        key_names(a + seq!['='] + v + seq!['&'] + b + seq!['='] + w) == seq![a, b],
{
    let (x, y) = (a + seq!['='] + v, b + seq!['='] + w);
    assert(a + seq!['='] + v + seq!['&'] + b + seq!['='] + w =~= x + seq!['&'] + y);
    an_ampersand_joins_queries(x, y);
    a_component_has_its_name(a, v);
    a_component_has_its_name(b, w);
    assert(seq![a] + seq![b] =~= seq![a, b]);
}

/// The shape of the queries of a list of requests.
pub open spec fn shape_of(
    queries: Seq<Option<Seq<char>>>,
    maximum_strings: nat,
    maximum_keys: nat,
) -> QueryModel
    decreases queries.len(),
{
    if queries.len() == 0 {
        QueryModel::none()
    } else {
        shape_of(queries.drop_last(), maximum_strings, maximum_keys).observed(
            queries.last(),
            maximum_strings,
            maximum_keys,
        )
    }
}

proof fn lemma_retained_all(
    set: Set<Seq<char>>,
    omitted: nat,
    values: Seq<Seq<char>>,
    limit: nat,
    value: Seq<char>,
)
    requires
        set.finite(),
        set.len() <= limit,
    ensures
        ({
            let r = retained_all(set, omitted, values, limit);
            &&& r.0.finite()
            &&& r.0.len() <= limit
            &&& set.subset_of(r.0)
            &&& set.len() <= r.0.len()
            &&& omitted <= r.1
            &&& r.0.contains(value) ==> set.contains(value) || values.contains(value)
            &&& r.1 == omitted && values.contains(value) ==> r.0.contains(value)
            &&& r.1 > omitted ==> r.0.len() == limit
        }),
    decreases values.len(),
{
    if values.len() > 0 {
        let before = values.drop_last();
        lemma_retained_all(set, omitted, before, limit, value);
        let r = retained_all(set, omitted, before, limit);
        let last = values.last();
        if before.contains(value) {
            let i = before.index_of(value);
            assert(values[i] == value);
        }
        assert(values[values.len() - 1] == last);
        if values.contains(value) && value != last {
            let i = values.index_of(value);
            assert(before[i] == value);
        }
    }
}

/// What is kept of the queries of requests is what they held: a text is kept only where some
/// request had it as its query, and a key only where it is a key name of some query. Neither is
/// kept beyond its limit. Where none was left out, each query and each key name is kept, and
/// something is left out only where the limit is reached.
pub proof fn kept_queries_are_those_observed(
    queries: Seq<Option<Seq<char>>>,
    maximum_strings: nat,
    maximum_keys: nat,
    text: Seq<char>,
)
    ensures
        ({
            let shape = shape_of(queries, maximum_strings, maximum_keys);
            let observed = queries.contains(Some(text));
            let named = exists|i: int|
                0 <= i < queries.len() && (#[trigger] queries[i]) is Some && key_names(
                    queries[i].unwrap(),
                ).contains(text);
            &&& shape.requests_with_query == queries.filter(
                |q: Option<Seq<char>>| q is Some,
            ).len()
            &&& shape.strings.finite() && shape.strings.len() <= maximum_strings
            &&& shape.keys.finite() && shape.keys.len() <= maximum_keys
            &&& shape.strings.contains(text) ==> observed
            &&& shape.strings_beyond == 0 && observed ==> shape.strings.contains(text)
            &&& shape.strings_beyond > 0 ==> shape.strings.len() == maximum_strings
            &&& shape.keys.contains(text) ==> named
            &&& shape.keys_beyond == 0 && named ==> shape.keys.contains(text)
            &&& shape.keys_beyond > 0 ==> shape.keys.len() == maximum_keys
        }),
    decreases queries.len(),
{
    reveal(Seq::filter);
    if queries.len() > 0 {
        let before = queries.drop_last();
        let shape = shape_of(before, maximum_strings, maximum_keys);
        kept_queries_are_those_observed(before, maximum_strings, maximum_keys, text);
        assert(queries[queries.len() - 1] == queries.last());
        if before.contains(Some(text)) {
            let i = before.index_of(Some(text));
            assert(queries[i] == Some(text));
        }
        if queries.contains(Some(text)) && queries.last() != Some(text) {
            let i = queries.index_of(Some(text));
            assert(before[i] == Some(text));
        }
        if let Some(q) = queries.last() {
            lemma_retained_all(shape.keys, shape.keys_beyond, key_names(q), maximum_keys, text);
        }
        if exists|i: int|
            0 <= i < before.len() && (#[trigger] before[i]) is Some && key_names(
                before[i].unwrap(),
            ).contains(text) {
            let i = choose|i: int|
                0 <= i < before.len() && (#[trigger] before[i]) is Some && key_names(
                    before[i].unwrap(),
                ).contains(text);
            assert(queries[i] == before[i]);
        }
        if exists|i: int|
            0 <= i < queries.len() && (#[trigger] queries[i]) is Some && key_names(
                queries[i].unwrap(),
            ).contains(text) {
            let i = choose|i: int|
                0 <= i < queries.len() && (#[trigger] queries[i]) is Some && key_names(
                    queries[i].unwrap(),
                ).contains(text);
            if i < before.len() {
                assert(before[i] == queries[i]);
            }
        }
    }
}

/// The queries of the requests of a list for a path.
pub open spec fn queries_for(list: Seq<Observation>, path: Seq<char>) -> Seq<Option<Seq<char>>>
    decreases list.len(),
{
    if list.len() == 0 {
        seq![]
    } else if list.last().path == Some(path) {
        queries_for(list.drop_last(), path).push(list.last().query)
    } else {
        queries_for(list.drop_last(), path)
    }
}

/// What is kept of the queries for a path is exact: it is the shape of the queries of every
/// request for the path.
pub proof fn kept_path_queries_are_exact(
    m: ConcentrationModel,
    list: Seq<Observation>,
    path: Seq<char>,
)
    requires
        m.paths == PathBookModel::none(),
    ensures
        ({
            let after = m.observed_all(list);
            &&& after.limits == m.limits
            &&& after.paths.paths.dom().contains(path) ==> after.paths.paths[path].query
                == shape_of(
                queries_for(list, path),
                m.limits.max_query_strings_per_path as nat,
                m.limits.max_query_keys_per_path as nat,
            )
            &&& !after.paths.paths.dom().contains(path) && after.paths.paths.dom().len()
                < m.limits.max_paths ==> queries_for(list, path).len() == 0
            &&& after.paths.paths.dom().finite()
        }),
    decreases list.len(),
{
    kept_paths_are_exact(m, list, path);
    lemma_as_many_queries(list, path);
    if list.len() > 0 {
        let before = list.drop_last();
        kept_path_queries_are_exact(m, before, path);
        kept_paths_are_exact(m, before, path);
        lemma_as_many_queries(before, path);
        let queries = queries_for(before, path);
        let (strings, keys) = (
            m.limits.max_query_strings_per_path as nat,
            m.limits.max_query_keys_per_path as nat,
        );
        if list.last().path == Some(path) {
            let all = queries.push(list.last().query);
            assert(all.drop_last() =~= queries);
            assert(shape_of(all, strings, keys) == shape_of(queries, strings, keys).observed(
                list.last().query,
                strings,
                keys,
            ));
            if queries.len() == 0 {
                assert(shape_of(queries, strings, keys) == QueryModel::none());
            }
        }
    }
}

/// A private report that shows key names lists those of each path in the order on texts, each
/// once, and says how many there are. Where none was left out, they are exactly the key names of
/// the queries of the requests for the path.
pub proof fn reported_keys_are_those_observed(
    r: PrivateRequestConcentrationReport,
    m: ConcentrationModel,
    list: Seq<Observation>,
    i: int,
    key: Seq<char>,
)
    requires
        m.paths == PathBookModel::none(),
        is_private_report(r, m.observed_all(list), true),
        0 <= i < r.paths@.len(),
    ensures
        ({
            let path = r.paths@[i];
            let shown = texts(path.query_keys@);
            let queries = queries_for(list, path.uri_path@);
            let named = exists|k: int|
                0 <= k < queries.len() && (#[trigger] queries[k]) is Some && key_names(
                    queries[k].unwrap(),
                ).contains(key);
            &&& increasing(shown)
            &&& path.summary.distinct_query_keys == shown.len()
            &&& shown.contains(key) ==> named
            &&& path.summary.query_keys_beyond_tracking_cap == 0 && named ==> shown.contains(key)
            &&& path.summary.requests_with_query == queries.filter(
                |q: Option<Seq<char>>| q is Some,
            ).len()
        }),
{
    let after = m.observed_all(list);
    let path = r.paths@[i].uri_path@;
    let queries = queries_for(list, path);
    let keys = after.paths.paths[path].query.keys;
    kept_path_queries_are_exact(m, list, path);
    assert(path_names(r.paths@)[i] == path);
    assert(path_names(r.paths@).to_set().contains(path));
    assert(path_requests(after.paths.paths).dom() =~= after.paths.paths.dom());
    kept_queries_are_those_observed(
        queries,
        m.limits.max_query_strings_per_path as nat,
        m.limits.max_query_keys_per_path as nat,
        key,
    );
    ordered_texts_lists_the_members(keys);
    lemma_increasing_distinct(ordered_texts(keys));
    let shown = texts(r.paths@[i].query_keys@);
    assert(shown.to_set().contains(key) == shown.contains(key));
    shown.unique_seq_to_set();
}

proof fn lemma_as_many_queries(list: Seq<Observation>, path: Seq<char>)
    ensures
        queries_for(list, path).len() == requests_for(list, path),
    decreases list.len(),
{
    if list.len() > 0 {
        lemma_as_many_queries(list.drop_last(), path);
    }
}

} // verus!
