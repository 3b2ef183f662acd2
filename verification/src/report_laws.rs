//! What reports on volume give of the paths, sources and times that were kept.

use crate::bot_ranges::{is_observation, BotOperatorObservation, Observed};
use crate::concentration::ConcentrationModel;
use crate::daily::{configured_up_to, unavailable_up_to, PointEvaluation};
use crate::focus::{FocusModel, SelectorModel};
use crate::investigation::{record_before, ContextRecord};
use crate::numbers::{ordered_keys, ordered_keys_lists_the_members};
use crate::status::StatusClassCounts;
use crate::text::{text_before, text_order_is_total};
use crate::timeline::{request_series, status_series};
use crate::tracking::{PairBookModel, PathModel, SourceModel};
use crate::volume_report::{
    count_positive, is_path_summary, is_sanitized_focus, is_source_report, most_requested_reported,
    positive, PathConcentrationSummary, PrivateSourceConcentration, SanitizedFocusSummary,
};
use vstd::prelude::*;

verus! {

/// A path is reported with its requests, their part of all requests, the sources that requested
/// it, how many requests there are for each of them, and what its queries hold. The size of its
/// responses is given where sizes are recorded.
pub proof fn paths_are_reported_with_what_was_kept(
    r: PathConcentrationSummary,
    path: PathModel,
    m: ConcentrationModel,
)
    requires
        is_path_summary(r, path, m),
        path.tally.requests <= m.tally.requests <= u64::MAX,
        path.sources.len() <= u64::MAX,
        path.response_bytes <= u64::MAX,
    ensures
        r.requests == path.tally.requests,
        r.request_share.numerator == r.requests,
        r.request_share.denominator == m.tally.requests,
        r.request_share.numerator <= r.request_share.denominator,
        r.distinct_source_ips == path.sources.len(),
        r.requests_per_source_ip.numerator == r.requests,
        r.requests_per_source_ip.denominator == r.distinct_source_ips,
        r.response_status_classes == path.tally.classes,
        r.response_status_codes is Some <==> m.status_available,
        r.response_bytes is Some <==> m.response_bytes_available,
        r.response_bytes is Some ==> r.response_bytes.unwrap() == path.response_bytes,
        r.requests_with_query == path.query.requests_with_query,
        r.distinct_query_strings == path.query.strings.len(),
        r.query_strings_beyond_tracking_cap == path.query.strings_beyond,
        r.distinct_query_keys == path.query.keys.len(),
        r.query_keys_beyond_tracking_cap == path.query.keys_beyond,
{
}

/// A source is reported with its requests and the segments of its paths. The segments that were
/// not found, and the outcomes, are given where statuses are recorded.
pub proof fn sources_are_reported_with_what_was_kept(
    r: PrivateSourceConcentration,
    source: SourceModel,
    m: ConcentrationModel,
)
    requires
        is_source_report(r, source, m),
        source.segments.len() <= usize::MAX,
        source.segments_404.len() <= usize::MAX,
        source.segments_beyond_cap <= u64::MAX,
        source.segments_404_beyond_cap <= u64::MAX,
        source.paths_unavailable <= u64::MAX,
    ensures
        r.requests == source.tally.requests,
        r.response_status_classes == source.tally.classes,
        r.response_status_codes is Some <==> m.status_available,
        r.response_outcomes is Some <==> m.status_available,
        r.response_outcomes is Some ==> r.response_outcomes.unwrap().counts
            == source.tally.classes,
        r.path_segment_diversity is Some,
        ({
            let d = r.path_segment_diversity.unwrap();
            &&& d.distinct_segments == source.segments.len()
            &&& d.observations_beyond_cap == source.segments_beyond_cap
            &&& d.observations_without_path == source.paths_unavailable
            &&& d.maximum_segments == m.limits.max_source_segments
            &&& d.distinct_404_segments is Some <==> m.status_available
            &&& d.observations_404_beyond_cap is Some <==> m.status_available
            &&& m.status_available ==> d.distinct_404_segments.unwrap() == source.segments_404.len()
            &&& m.status_available ==> d.observations_404_beyond_cap.unwrap()
                == source.segments_404_beyond_cap
        }),
{
}

/// The path that a source requested most is one of its paths, and it requested none more often;
/// of those that it requested as often, it is the first. There is none where not all of its paths
/// were kept.
pub proof fn the_most_requested_path_is_of_the_source(
    r: Option<String>,
    pairs: PairBookModel,
    source: Seq<char>,
    other: Seq<char>,
)
    requires
        most_requested_reported(r, pairs, source),
    ensures
        pairs.incomplete.contains(source) ==> r is None,
        r is None ==> pairs.incomplete.contains(source) || pairs.paths_of(source).dom().len() == 0,
        r is Some ==> pairs.paths_of(source).dom().contains(r.unwrap()@),
        r is Some && pairs.paths_of(source).dom().contains(other) ==> pairs.paths_of(source)[other]
            <= pairs.paths_of(source)[r.unwrap()@],
        r is Some && pairs.paths_of(source).dom().contains(other) && pairs.paths_of(source)[other]
            == pairs.paths_of(source)[r.unwrap()@] ==> other == r.unwrap()@ || text_before(
            r.unwrap()@,
            other,
        ),
{
}

/// A shared summary of a focus gives its kind and numbers of what was kept.
pub proof fn shared_summaries_give_what_was_kept(
    s: SanitizedFocusSummary,
    selector: SelectorModel,
    f: FocusModel,
)
    requires
        is_sanitized_focus(s, selector, f),
        f.tally.requests <= u64::MAX,
        f.sources.dom().len() <= u64::MAX,
    ensures
        selector is ExactPath ==> s.focus_kind@ == "exact-path"@,
        selector is PathPrefix ==> s.focus_kind@ == "path-prefix"@,
        selector is SourceIp ==> s.focus_kind@ == "source-ip"@,
        s.total_requests == f.tally.requests,
        s.distinct_source_ips == f.sources.dom().len(),
        s.requests_per_source_ip.numerator == s.total_requests,
        s.requests_per_source_ip.denominator == s.distinct_source_ips,
        s.source_ips_beyond_cap == f.sources_beyond,
        s.distinct_uri_paths == f.paths.dom().len(),
        s.paths_beyond_cap == f.paths_beyond,
        s.requests_with_query == f.query.requests_with_query,
        s.distinct_query_strings == f.query.strings.len(),
        s.query_strings_beyond_tracking_cap == f.query.strings_beyond,
        s.distinct_query_keys == f.query.keys.len(),
        s.query_keys_beyond_tracking_cap == f.query.keys_beyond,
        s.request_rates@.len() == f.windows.len(),
        forall|i: int|
            0 <= i < f.windows.len() ==> (#[trigger] s.request_rates@[i]).bucket_width_seconds
                == f.windows[i].width,
{
}

/// The counts that are more than none, and how many there are.
pub proof fn positive_counts_are_selected(
    values: Seq<u64>,
    keys: Seq<Seq<char>>,
    counts: Map<Seq<char>, nat>,
)
    ensures
        positive(values) == values.filter(|v: u64| v != 0),
        count_positive(keys, counts) == keys.filter(|k: Seq<char>| counts[k] != 0).len(),
    decreases values.len() + keys.len(),
{
    reveal(Seq::filter);
    if values.len() > 0 {
        positive_counts_are_selected(values.drop_last(), seq![], counts);
    }
    if keys.len() > 0 {
        positive_counts_are_selected(seq![], keys.drop_last(), counts);
    }
}

/// A series has each minute once, from the earliest on, with what was counted in it.
pub proof fn series_have_each_minute(
    buckets: Map<i64, u64>,
    outcomes: Map<i64, StatusClassCounts>,
    i: int,
    j: int,
)
    requires
        buckets.dom().finite(),
        outcomes.dom().finite(),
    ensures
        ({
            let s = request_series(buckets);
            &&& s.len() == buckets.dom().len()
            &&& 0 <= i < s.len() ==> buckets.dom().contains(s[i].minute_epoch) && s[i].requests
                == buckets[s[i].minute_epoch]
            &&& 0 <= i < j < s.len() ==> s[i].minute_epoch < s[j].minute_epoch
        }),
        ({
            let s = status_series(outcomes);
            &&& s.len() == outcomes.dom().len()
            &&& 0 <= i < s.len() ==> {
                &&& outcomes.dom().contains(s[i].minute_epoch)
                &&& s[i].informational == outcomes[s[i].minute_epoch].informational
                &&& s[i].success == outcomes[s[i].minute_epoch].success
                &&& s[i].redirection == outcomes[s[i].minute_epoch].redirection
                &&& s[i].client_error == outcomes[s[i].minute_epoch].client_error
                &&& s[i].server_error == outcomes[s[i].minute_epoch].server_error
            }
            &&& 0 <= i < j < s.len() ==> s[i].minute_epoch < s[j].minute_epoch
        }),
{
    let a = ordered_keys(buckets.dom());
    let b = ordered_keys(outcomes.dom());
    ordered_keys_lists_the_members(buckets.dom());
    ordered_keys_lists_the_members(outcomes.dom());
    a.unique_seq_to_set();
    b.unique_seq_to_set();
    if 0 <= i < a.len() {
        assert(a.to_set().contains(a[i]));
    }
    if 0 <= i < b.len() {
        assert(b.to_set().contains(b[i]));
    }
}

/// Records come in the order of their times, at one time in the order of their files, and in one
/// file in the order of their lines. Two records at different places are in one order only.
pub proof fn records_come_in_order(a: ContextRecord, b: ContextRecord)
    ensures
        ({
            let (x, y) = (a.timestamp, b.timestamp);
            let (f, g) = (a.source_reference.input_file@, b.source_reference.input_file@);
            let (m, n) = (a.source_reference.line_number, b.source_reference.line_number);
            &&& x.seconds < y.seconds ==> record_before(a, b) && !record_before(b, a)
            &&& x.seconds == y.seconds && x.nanos < y.nanos ==> record_before(a, b)
                && !record_before(b, a)
            &&& x == y && text_before(f, g) ==> record_before(a, b) && !record_before(b, a)
            &&& x == y && f == g ==> (record_before(a, b) <==> m < n)
            &&& x != y || f != g || m != n ==> record_before(a, b) != record_before(b, a)
        }),
{
    text_order_is_total(a.source_reference.input_file@, b.source_reference.input_file@);
}

/// The points that were set are counted, and of them those that could not be looked at.
pub proof fn points_are_counted(evaluations: Seq<Option<PointEvaluation>>, n: nat)
    requires
        n <= evaluations.len(),
    ensures
        configured_up_to(evaluations, n) == evaluations.take(n as int).filter(
            |e: Option<PointEvaluation>| e is Some,
        ).len(),
        unavailable_up_to(evaluations, n) == evaluations.take(n as int).filter(
            |e: Option<PointEvaluation>| e is Some && e.unwrap().crossed is None,
        ).len(),
    decreases n,
{
    reveal(Seq::filter);
    if n > 0 {
        points_are_counted(evaluations, (n - 1) as nat);
        assert(evaluations.take(n as int).drop_last() =~= evaluations.take(n - 1));
    }
}

/// What was observed of an operator is reported, and the rate of the requests from outside is of
/// those whose peer is known.
pub proof fn operators_are_reported_with_what_was_observed(
    r: BotOperatorObservation,
    id: Seq<char>,
    m: Observed,
)
    requires
        is_observation(r, id, m),
        m.inside + m.outside <= u64::MAX,
    ensures
        r.operator_id@ == id,
        r.operator_name@ == m.name,
        r.declared_requests == m.declared,
        r.within_published_ranges_requests == m.inside,
        r.outside_published_ranges_requests == m.outside,
        r.source_ip_unavailable_requests == m.unavailable,
        r.within_published_ranges_distinct_source_ips == m.inside_sources.len(),
        r.outside_published_ranges_distinct_source_ips == m.outside_sources.dom().len(),
        r.outside_published_ranges_rate is None <==> r.within_published_ranges_requests
            + r.outside_published_ranges_requests == 0,
        r.outside_published_ranges_rate is Some ==> {
            let rate = r.outside_published_ranges_rate.unwrap();
            &&& rate.numerator == r.outside_published_ranges_requests
            &&& rate.denominator == r.within_published_ranges_requests
                + r.outside_published_ranges_requests
        },
{
}

} // verus!
