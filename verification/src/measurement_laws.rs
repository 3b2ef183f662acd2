//! What measurements of request volumes say of the requests that were observed.

use crate::concentration::{
    kept_paths_are_exact, kept_sources_are_exact, observation, requests_for, requests_from,
    ConcentrationModel,
};
use crate::event::WebEvent;
use crate::focus::{selects, under, SelectorModel};
use crate::numbers::{largest_of, median_of, sorted};
use crate::status::StatusClassCounts;
use crate::text::{lemma_first_of_unique, opt_text};
use crate::timeline::bucket_of;
use crate::tracking::{
    first_segment, Observation, PathBookModel, SourceBookModel, TallyModel,
};
use crate::volume_report::{is_summary, is_top_ten_share, RequestConcentrationSummary};
use crate::sums::list_sum;
use vstd::prelude::*;

verus! {

/// An observation holds the time, the connection peer, the path, the query, the status and the
/// size of the event.
pub proof fn observations_are_of_the_event(e: WebEvent)
    ensures
        observation(e).time == e.timestamp,
        observation(e).source == opt_text(e.source_ip),
        observation(e).path == opt_text(e.uri_path),
        observation(e).query == opt_text(e.uri_query),
        observation(e).status == e.status,
        observation(e).bytes == e.response_bytes,
{
}

/// The outcomes of requests, by the statuses they were answered with.
pub open spec fn tally_of(statuses: Seq<Option<u16>>, start: TallyModel, maximum: nat) -> TallyModel
    decreases statuses.len(),
{
    if statuses.len() == 0 {
        start
    } else {
        tally_of(statuses.drop_last(), start, maximum).recorded(statuses.last(), maximum)
    }
}

/// Whether a status is in a hundred.
pub open spec fn in_hundred(status: Option<u16>, hundred: int) -> bool {
    status is Some && status.unwrap() as int / 100 == hundred
}

/// How many statuses of a list are such as asked for.
pub open spec fn how_many(
    statuses: Seq<Option<u16>>,
    such: spec_fn(Option<u16>) -> bool,
) -> nat
    decreases statuses.len(),
{
    if statuses.len() == 0 {
        0
    } else {
        how_many(statuses.drop_last(), such) + if such(statuses.last()) {
            1nat
        } else {
            0nat
        }
    }
}

proof fn lemma_no_more(statuses: Seq<Option<u16>>, such: spec_fn(Option<u16>) -> bool)
    ensures
        how_many(statuses, such) <= statuses.len(),
    decreases statuses.len(),
{
    if statuses.len() > 0 {
        lemma_no_more(statuses.drop_last(), such);
    }
}

/// Each response is counted in the class of the hundred of its status: the first to the fifth
/// have a class of their own, 499 is also counted apart, a status of another hundred is other,
/// and one that is missing is unavailable.
pub proof fn responses_fall_into_their_classes(
    statuses: Seq<Option<u16>>,
    start: TallyModel,
    maximum: nat,
)
    requires
        statuses.len() <= u64::MAX,
        start.requests == 0,
        start.classes == StatusClassCounts::none(),
    ensures
        ({
            let r = tally_of(statuses, start, maximum);
            &&& r.requests == statuses.len()
            &&& r.classes.informational == how_many(
                statuses,
                |s: Option<u16>| in_hundred(s, 1),
            )
            &&& r.classes.success == how_many(statuses, |s: Option<u16>| in_hundred(s, 2))
            &&& r.classes.redirection == how_many(statuses, |s: Option<u16>| in_hundred(s, 3))
            &&& r.classes.client_error == how_many(statuses, |s: Option<u16>| in_hundred(s, 4))
            &&& r.classes.server_error == how_many(statuses, |s: Option<u16>| in_hundred(s, 5))
            &&& r.classes.client_closed_request_499 == how_many(
                statuses,
                |s: Option<u16>| s == Some(499u16),
            )
            &&& r.classes.unavailable == how_many(statuses, |s: Option<u16>| s is None)
            &&& r.classes.other == how_many(
                statuses,
                |s: Option<u16>| s is Some && !(100 <= s.unwrap() < 600),
            )
        }),
    decreases statuses.len(),
{
    if statuses.len() > 0 {
        let before = statuses.drop_last();
        responses_fall_into_their_classes(before, start, maximum);
        lemma_no_more(before, |s: Option<u16>| in_hundred(s, 1));
        lemma_no_more(before, |s: Option<u16>| in_hundred(s, 2));
        lemma_no_more(before, |s: Option<u16>| in_hundred(s, 3));
        lemma_no_more(before, |s: Option<u16>| in_hundred(s, 4));
        lemma_no_more(before, |s: Option<u16>| in_hundred(s, 5));
        lemma_no_more(before, |s: Option<u16>| s == Some(499u16));
        lemma_no_more(before, |s: Option<u16>| s is None);
        lemma_no_more(before, |s: Option<u16>| s is Some && !(100 <= s.unwrap() < 600));
    }
}

/// The count of a code that is kept is exact: every response with it is in it. A code that was
/// seen is missing only where the bound on codes is reached, and then its responses are counted as
/// beyond it.
pub proof fn kept_codes_are_exact(
    statuses: Seq<Option<u16>>,
    start: TallyModel,
    maximum: nat,
    code: u16,
)
    requires
        statuses.len() <= u64::MAX,
        start.codes.counts == Map::<u16, u64>::empty(),
        start.codes.beyond == 0,
    ensures
        ({
            let codes = tally_of(statuses, start, maximum).codes;
            let seen = how_many(statuses, |s: Option<u16>| s == Some(code));
            let kept = codes.counts.dom().contains(code);
            &&& codes.counts.dom().finite()
            &&& codes.counts.dom().len() <= maximum
            &&& kept ==> codes.counts[code] == seen && seen > 0
            &&& !kept ==> seen <= codes.beyond
            &&& !kept && seen > 0 ==> codes.counts.dom().len() == maximum
        }),
    decreases statuses.len(),
{
    if statuses.len() > 0 {
        let before = statuses.drop_last();
        kept_codes_are_exact(before, start, maximum, code);
        lemma_no_more(before, |s: Option<u16>| s == Some(code));
    }
}

/// The statuses of the requests of a list that are such as asked for.
pub open spec fn statuses_where(
    list: Seq<Observation>,
    such: spec_fn(Observation) -> bool,
) -> Seq<Option<u16>>
    decreases list.len(),
{
    if list.len() == 0 {
        seq![]
    } else if such(list.last()) {
        statuses_where(list.drop_last(), such).push(list.last().status)
    } else {
        statuses_where(list.drop_last(), such)
    }
}

proof fn lemma_one_more(
    before: Seq<Option<u16>>,
    status: Option<u16>,
    start: TallyModel,
    maximum: nat,
)
    ensures
        tally_of(before.push(status), start, maximum) == tally_of(
            before,
            start,
            maximum,
        ).recorded(status, maximum),
        before.len() == 0 ==> tally_of(before, start, maximum) == start,
{
    assert(before.push(status).drop_last() =~= before);
}

/// What is measured of all requests, of those for a path that is kept and of those from a source
/// that is kept, is the tally of the statuses of exactly these requests.
pub proof fn tallies_are_of_the_requests(
    m: ConcentrationModel,
    list: Seq<Observation>,
    name: Seq<char>,
)
    requires
        m.paths == PathBookModel::none(),
        m.sources == SourceBookModel::none(),
    ensures
        ({
            let after = m.observed_all(list);
            let codes = m.limits.max_status_codes_per_entity as nat;
            let start = TallyModel::none();
            &&& after.limits == m.limits
            &&& after.tally == tally_of(statuses_where(list, |o: Observation| true), m.tally, codes)
            &&& after.paths.paths.dom().contains(name) ==> after.paths.paths[name].tally
                == tally_of(
                statuses_where(list, |o: Observation| o.path == Some(name)),
                start,
                codes,
            )
            &&& after.sources.sources.dom().contains(name) ==> after.sources.sources[name].tally
                == tally_of(
                statuses_where(list, |o: Observation| o.source == Some(name)),
                start,
                codes,
            )
        }),
    decreases list.len(),
{
    if list.len() > 0 {
        let before = list.drop_last();
        let codes = m.limits.max_status_codes_per_entity as nat;
        let status = list.last().status;
        tallies_are_of_the_requests(m, before, name);
        kept_paths_are_exact(m, before, name);
        kept_sources_are_exact(m, before, name);
        lemma_as_many(before, name);
        lemma_one_more(
            statuses_where(before, |o: Observation| true),
            status,
            m.tally,
            codes,
        );
        lemma_one_more(
            statuses_where(before, |o: Observation| o.path == Some(name)),
            status,
            TallyModel::none(),
            codes,
        );
        lemma_one_more(
            statuses_where(before, |o: Observation| o.source == Some(name)),
            status,
            TallyModel::none(),
            codes,
        );
    }
}

proof fn lemma_as_many(list: Seq<Observation>, name: Seq<char>)
    ensures
        statuses_where(list, |o: Observation| o.path == Some(name)).len() == requests_for(
            list,
            name,
        ),
        statuses_where(list, |o: Observation| o.source == Some(name)).len() == requests_from(
            list,
            name,
        ),
        statuses_where(list, |o: Observation| true).len() == list.len(),
    decreases list.len(),
{
    if list.len() > 0 {
        lemma_as_many(list.drop_last(), name);
    }
}

/// The outcomes of a summary are those of the requests that were observed: each share is of all
/// requests, the successes are the statuses of the two hundreds, the redirections those of the
/// three hundreds, the server errors those of the five hundreds, and the ordinary client errors
/// those of the four hundreds without 499, which is reported apart.
pub proof fn reported_outcomes_are_those_observed(
    r: RequestConcentrationSummary,
    m: ConcentrationModel,
    list: Seq<Observation>,
)
    requires
        m.paths == PathBookModel::none(),
        m.sources == SourceBookModel::none(),
        m.tally.requests == 0,
        m.tally.classes == StatusClassCounts::none(),
        list.len() <= u64::MAX,
        is_summary(r, m.observed_all(list)),
    ensures
        r.total_requests == list.len(),
        r.response_outcomes is Some == m.observed_all(list).status_available,
        r.response_outcomes matches Some(o) ==> {
            let statuses = statuses_where(list, |o: Observation| true);
            &&& statuses.len() == list.len()
            &&& o.success_share.denominator == list.len()
            &&& o.redirection_share.denominator == list.len()
            &&& o.ordinary_client_error_share.denominator == list.len()
            &&& o.client_closed_request_499_share.denominator == list.len()
            &&& o.server_error_share.denominator == list.len()
            &&& o.success_share.numerator == how_many(
                statuses,
                |s: Option<u16>| in_hundred(s, 2),
            )
            &&& o.redirection_share.numerator == how_many(
                statuses,
                |s: Option<u16>| in_hundred(s, 3),
            )
            &&& o.ordinary_client_error_share.numerator + o.client_closed_request_499_share.numerator
                == how_many(statuses, |s: Option<u16>| in_hundred(s, 4))
            &&& o.client_closed_request_499_share.numerator == how_many(
                statuses,
                |s: Option<u16>| s == Some(499u16),
            )
            &&& o.server_error_share.numerator == how_many(
                statuses,
                |s: Option<u16>| in_hundred(s, 5),
            )
        },
{
    let codes = m.limits.max_status_codes_per_entity as nat;
    let statuses = statuses_where(list, |o: Observation| true);
    tallies_are_of_the_requests(m, list, seq![]);
    lemma_as_many(list, seq![]);
    responses_fall_into_their_classes(statuses, m.tally, codes);
    lemma_totals(statuses, m.tally, codes);
}

proof fn lemma_totals(statuses: Seq<Option<u16>>, start: TallyModel, maximum: nat)
    requires
        statuses.len() <= u64::MAX,
        start.requests == 0,
        start.classes == StatusClassCounts::none(),
    ensures
        ({
            let classes = tally_of(statuses, start, maximum).classes;
            &&& classes.total() == statuses.len()
            &&& classes.client_closed_request_499 <= classes.client_error
        }),
    decreases statuses.len(),
{
    if statuses.len() > 0 {
        lemma_totals(statuses.drop_last(), start, maximum);
    }
}

/// The bucket of a point in time is the one that it lies in: a bucket starts at its number of
/// widths after the epoch and ends before the next one starts.
pub proof fn times_lie_in_their_buckets(seconds: i64, width: u64)
    requires
        0 < width <= i64::MAX,
    ensures
        bucket_of(seconds, width) * width <= seconds,
        seconds < (bucket_of(seconds, width) + 1) * width,
{
    let (s, w) = (seconds as int, width as int);
    let q = s / w;
    vstd::arithmetic::div_mod::lemma_fundamental_div_mod(s, w);
    vstd::arithmetic::div_mod::lemma_mod_bound(s, w);
    assert(w * q == q * w) by (nonlinear_arith);
    assert((q + 1) * w == q * w + w) by (nonlinear_arith);
    assert(i64::MIN <= q <= i64::MAX) by (nonlinear_arith)
        requires
            w * q <= s < w * q + w,
            w >= 1,
            i64::MIN <= s <= i64::MAX,
    ;
}

/// In every arrangement of a list of values in which none comes before a smaller one, the peak is
/// the last value and the median is of the two in the middle, which are one where the length is
/// odd.
pub proof fn rates_are_taken_from_the_middle_and_the_end(values: Seq<u64>, arranged: Seq<u64>)
    requires
        values.len() > 0,
        arranged.to_multiset() == values.to_multiset(),
        forall|i: int, j: int|
            0 <= i < j < arranged.len() ==> #[trigger] arranged[i] <= #[trigger] arranged[j],
    ensures
        arranged.len() == values.len(),
        largest_of(values) == Some(arranged[arranged.len() - 1]),
        median_of(values) matches Some(median) && {
            &&& median.lower == arranged[(arranged.len() - 1) / 2]
            &&& median.upper == arranged[arranged.len() as int / 2]
        },
{
    broadcast use vstd::seq_lib::group_to_multiset_ensures;

    assert(arranged.len() == arranged.to_multiset().len());
    assert(values.len() == values.to_multiset().len());
    let leq = |a: u64, b: u64| a <= b;
    assert(vstd::relations::total_ordering(leq));
    values.lemma_sort_by_ensures(leq);
    assert(vstd::relations::sorted_by(arranged, leq));
    vstd::seq_lib::lemma_sorted_unique(arranged, sorted(values), leq);
}

/// There is neither a peak nor a median of no values.
pub proof fn nothing_has_no_rate()
    ensures
        largest_of(Seq::<u64>::empty()) is None,
        median_of(Seq::<u64>::empty()) is None,
{
}

/// A share of the ten most requested is of keys that no other exceeds: at most ten of them, all
/// where there are no more than ten, and each with at least as many requests as any that is left
/// out.
pub proof fn the_top_ten_are_the_most_requested(
    r: crate::numbers::Ratio,
    requests: Map<Seq<char>, nat>,
    total: nat,
)
    requires
        requests.dom().finite(),
        is_top_ten_share(r, requests, total),
    ensures
        r.denominator == total,
        exists|top: Seq<Seq<char>>|
            {
                &&& top.no_duplicates()
                &&& top.len() == (if requests.dom().len() < 10 {
                    requests.dom().len()
                } else {
                    10
                })
                &&& r.numerator == #[trigger] list_sum(top, requests)
                &&& forall|k: Seq<char>| top.contains(k) ==> requests.dom().contains(k)
                &&& forall|k: Seq<char>, other: Seq<char>|
                    top.contains(k) && #[trigger] requests.dom().contains(other) && !top.contains(
                        other,
                    ) ==> #[trigger] requests[k] >= requests[other]
            },
{
    let list = crate::renaming::a_ranking_exists(requests);
    list.unique_seq_to_set();
    let n = if list.len() < 10 {
        list.len() as int
    } else {
        10
    };
    let top = list.take(n);
    assert forall|k: Seq<char>| top.contains(k) implies requests.dom().contains(k) by {
        let i = top.index_of(k);
        assert(list[i] == k);
        assert(list.to_set().contains(k));
    }
    assert forall|k: Seq<char>, other: Seq<char>|
        top.contains(k) && #[trigger] requests.dom().contains(other) && !top.contains(
            other,
        ) implies #[trigger] requests[k] >= requests[other] by {
        let i = top.index_of(k);
        assert(list.to_set().contains(other));
        let j = list.index_of(other);
        assert(list[j] == other);
        assert(list[i] == k);
        if j < n {
            assert(top[j] == other);
        }
        assert(i < j);
    }
    assert(r.numerator == list_sum(top, requests));
}

/// A prefix selects itself and what lies behind it and a slash, and no path that goes on in
/// another way. A slash at its end changes nothing, and the root selects every path.
pub proof fn a_prefix_selects_its_subtree(prefix: Seq<char>, rest: Seq<char>, path: Seq<char>)
    requires
        prefix.len() > 0,
        prefix.last() != '/',
    ensures
        under(prefix, prefix),
        under(prefix + seq!['/'] + rest, prefix),
        rest.len() > 0 && rest[0] != '/' ==> !under(prefix + rest, prefix),
        under(path, prefix + seq!['/']) == under(path, prefix),
        under(path, seq!['/']),
        under(path, prefix) ==> path == prefix || (path.len() > prefix.len() && path.take(
            prefix.len() as int,
        ) == prefix),
{
    let below = prefix + seq!['/'] + rest;
    assert(below.subrange(0, prefix.len() as int) =~= prefix);
    assert(below[prefix.len() as int] == '/');
    if rest.len() > 0 && rest[0] != '/' {
        assert((prefix + rest)[prefix.len() as int] == rest[0]);
    }
    assert((prefix + seq!['/']).drop_last() =~= prefix);
    assert(seq!['/'].drop_last() =~= Seq::<char>::empty());
    if under(path, prefix) && path != prefix {
        assert(path.take(prefix.len() as int) =~= path.subrange(0, prefix.len() as int));
    }
}

/// A focus on an exact path, on a prefix or on sources selects a request by its path, by its path
/// and by its source.
pub proof fn a_focus_selects_by_its_kind(
    text: Seq<char>,
    texts: Set<Seq<char>>,
    path: Option<Seq<char>>,
    source: Option<Seq<char>>,
)
    ensures
        selects(SelectorModel::ExactPath(text), path, source) == (path == Some(text)),
        selects(SelectorModel::PathPrefix(text), path, source) == (path matches Some(p) && under(
            p,
            text,
        )),
        selects(SelectorModel::SourceIp(texts), path, source) == (source matches Some(s)
            && texts.contains(s)),
{
}

/// The first segment of a path stands between its leading slash, where it has one, and the next
/// slash or the end.
pub proof fn the_first_segment_ends_at_a_slash(segment: Seq<char>, rest: Seq<char>)
    requires
        !segment.contains('/'),
    ensures
        first_segment(seq!['/'] + segment) == segment,
        first_segment(seq!['/'] + segment + seq!['/'] + rest) == segment,
        segment.len() > 0 ==> first_segment(segment) == segment,
        segment.len() > 0 ==> first_segment(segment + seq!['/'] + rest) == segment,
{
    assert forall|j: int| 0 <= j < segment.len() implies segment[j] != '/' by {
        assert(segment.contains(segment[j]));
    }
    let n = segment.len() as int;
    let long = segment + seq!['/'] + rest;
    lemma_first_of_unique(segment, '/', n);
    assert(long[n] == '/');
    assert forall|j: int| 0 <= j < n implies long[j] != '/' by {
        assert(long[j] == segment[j]);
    }
    lemma_first_of_unique(long, '/', n);
    assert(segment.take(n) =~= segment);
    assert(long.take(n) =~= segment);
    assert((seq!['/'] + segment).skip(1) =~= segment);
    assert((seq!['/'] + segment + seq!['/'] + rest).skip(1) =~= long);
    if n > 0 {
        assert(long[0] == segment[0]);
    }
}

} // verus!
