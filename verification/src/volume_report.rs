//! What a volume measurement reports: aggregates that are safe to share, and private detail.

use crate::concentration::ConcentrationModel;
use crate::focus::{display_of, kind_of, FocusModel, SelectorModel};
use crate::numbers::{largest_of, median_of, Median, MedianRatio, Ratio};
use crate::ordered::ordered_texts;
use crate::status::{
    outcome_summary, CodeModel, ResponseOutcomeSummary, StatusClassCounts, StatusCodeCounts,
};
use crate::sums::list_sum;
use crate::text::{text_before, texts};
use crate::timeline::{
    is_outcome_summary, rate_of, rate_summary, request_series, status_series, MinuteRequestCount,
    RateWindowModel, StatusClassMinuteCount, WindowedRequestRateSummary,
    WindowedResponseOutcomeSummary,
};
use crate::tracking::{
    path_requests, source_requests, tally_requests, PairBookModel, PathModel, QueryModel,
    SourceModel, TallyModel,
};
use vstd::prelude::*;

verus! {

#[derive(Clone, Debug)]
pub struct PathConcentrationSummary {
    pub requests: u64,
    pub request_share: Ratio,
    /// Exact unless the bound on sources was reached.
    pub distinct_source_ips: usize,
    /// Requests for each distinct source.
    pub requests_per_source_ip: Ratio,
    pub response_status_classes: StatusClassCounts,
    pub response_status_codes: Option<StatusCodeCounts>,
    /// `None` where the telemetry does not expose response sizes.
    pub response_bytes: Option<u64>,
    pub requests_with_query: u64,
    pub distinct_query_strings: usize,
    pub query_strings_beyond_tracking_cap: u64,
    pub distinct_query_keys: usize,
    pub query_keys_beyond_tracking_cap: u64,
}

#[derive(Clone, Copy, Debug, PartialEq, Eq, Structural)]
pub struct RequestRateSummary {
    pub peak_requests_per_minute: Option<u64>,
    pub median_requests_per_minute: Option<Median>,
    pub peak_to_median_ratio: Option<MedianRatio>,
    pub observations_without_timestamp: u64,
}

/// Aggregate-only focus output: neither the selector nor an observed value.
#[derive(Clone, Debug)]
pub struct SanitizedFocusSummary {
    pub focus_kind: String,
    pub total_requests: u64,
    pub distinct_source_ips: usize,
    pub requests_per_source_ip: Ratio,
    pub source_ips_beyond_cap: u64,
    /// Distinct paths inside the focus; zero for a focus on one exact path.
    pub distinct_uri_paths: usize,
    pub paths_beyond_cap: u64,
    pub peak_requests_per_minute: Option<u64>,
    pub median_requests_per_minute: Option<Median>,
    pub request_rates: Vec<WindowedRequestRateSummary>,
    pub requests_with_query: u64,
    pub distinct_query_strings: usize,
    pub query_strings_beyond_tracking_cap: u64,
    pub distinct_query_keys: usize,
    pub query_keys_beyond_tracking_cap: u64,
}

/// Aggregate-only output. It contains no paths, addresses, hosts, headers or other raw values.
#[derive(Clone, Debug)]
pub struct RequestConcentrationSummary {
    pub source_segment_diversity: Option<SourceSegmentDiversitySummary>,
    pub total_requests: u64,
    /// Exact unless `paths_beyond_tracking_cap` is not zero.
    pub distinct_uri_paths: usize,
    /// Exact unless `source_ips_beyond_tracking_cap` is not zero.
    pub distinct_source_ips: usize,
    pub requests_without_uri_path: u64,
    pub requests_without_source_ip: u64,
    pub paths_beyond_tracking_cap: u64,
    pub source_ips_beyond_tracking_cap: u64,
    pub source_path_pairs_beyond_tracking_cap: u64,
    pub top_path: Option<PathConcentrationSummary>,
    pub top_ten_paths_request_share: Ratio,
    pub top_ten_source_ips_request_share: Ratio,
    pub requests_per_minute: RequestRateSummary,
    /// One for each configured width, in increasing order.
    pub request_rates: Vec<WindowedRequestRateSummary>,
    /// `None` where the telemetry does not expose response statuses.
    pub response_outcomes: Option<ResponseOutcomeSummary>,
    pub response_outcome_windows: Option<Vec<WindowedResponseOutcomeSummary>>,
    pub response_status_codes: Option<StatusCodeCounts>,
    /// Present only where a focus was selected.
    pub focus: Option<SanitizedFocusSummary>,
}

#[derive(Clone, Debug)]
pub struct PrivatePathConcentration {
    pub uri_path: String,
    pub summary: PathConcentrationSummary,
    /// Retained key names only. Query strings and values are never reported.
    pub query_keys: Vec<String>,
}

#[derive(Clone, Debug)]
pub struct PrivateSourceConcentration {
    pub path_segment_diversity: Option<SourceSegmentDiversity>,
    pub source_ip: String,
    pub requests: u64,
    /// The most requested path of this source; none where one of its paths found no place.
    pub most_requested_uri_path: Option<String>,
    pub response_status_classes: StatusClassCounts,
    pub response_status_codes: Option<StatusCodeCounts>,
    pub response_outcomes: Option<ResponseOutcomeSummary>,
}

#[derive(Clone, Debug)]
pub struct PrivateFocusSource {
    pub source_ip: String,
    pub requests: u64,
    pub response_status_classes: StatusClassCounts,
    pub response_status_codes: Option<StatusCodeCounts>,
    pub response_outcomes: Option<ResponseOutcomeSummary>,
}

/// One path inside a focus.
#[derive(Clone, Debug)]
pub struct PrivateFocusPath {
    pub uri_path: String,
    pub requests: u64,
    pub response_status_classes: StatusClassCounts,
    pub response_status_codes: Option<StatusCodeCounts>,
}

/// The sources of a focus in one address block. A common prefix is not evidence of a common
/// owner, operator or actor.
#[derive(Clone, Debug)]
pub struct PrivateFocusPrefixGroup {
    pub network_prefix: String,
    pub requests: u64,
    pub request_share: Ratio,
    pub distinct_source_ips: usize,
    pub response_status_classes: StatusClassCounts,
    pub response_status_codes: Option<StatusCodeCounts>,
    pub response_outcomes: Option<ResponseOutcomeSummary>,
}

/// The sources of a focus in one autonomous system. It is not attribution.
#[derive(Clone, Debug)]
pub struct PrivateFocusAsnGroup {
    pub asn: u32,
    pub organization: String,
    pub requests: u64,
    pub request_share: Ratio,
    pub distinct_source_ips: usize,
}

/// Unresolved sources and their requests are disclosed rather than inferred or discarded.
#[derive(Clone, Debug)]
pub struct PrivateFocusAsnSummary {
    pub groups: Vec<PrivateFocusAsnGroup>,
    pub unresolved_source_ips: usize,
    pub unresolved_requests: u64,
}

/// Private detail for one focus.
#[derive(Clone, Debug)]
pub struct PrivateFocusSummary {
    pub response_status_codes: Option<StatusCodeCounts>,
    pub focus_kind: String,
    /// What the analyst selected.
    pub selector: String,
    pub uri_path: String,
    pub total_requests: u64,
    pub distinct_source_ips: usize,
    pub requests_per_source_ip: Ratio,
    pub source_ips_beyond_cap: u64,
    /// The paths inside the focus, most requested first; empty for one exact path.
    pub paths: Vec<PrivateFocusPath>,
    pub paths_beyond_cap: u64,
    pub peak_requests_per_minute: Option<u64>,
    pub median_requests_per_minute: Option<Median>,
    pub response_status_classes: StatusClassCounts,
    pub sources: Vec<PrivateFocusSource>,
    /// Derived from `sources` afterwards.
    pub network_prefix_groups: Vec<PrivateFocusPrefixGroup>,
    /// Derived from `sources` afterwards, where a local data set was supplied.
    pub asn: Option<PrivateFocusAsnSummary>,
    pub requests_per_minute_series: Vec<MinuteRequestCount>,
    pub minute_buckets_beyond_cap: u64,
    pub requests_with_query: u64,
    pub distinct_query_strings: usize,
    pub query_strings_beyond_tracking_cap: u64,
    pub distinct_query_keys: usize,
    pub query_keys_beyond_tracking_cap: u64,
    pub query_keys: Vec<String>,
}

#[derive(Clone, Debug)]
pub struct PrivateRequestConcentrationReport {
    pub report_kind: String,
    pub safety_note: String,
    pub summary: RequestConcentrationSummary,
    pub paths: Vec<PrivatePathConcentration>,
    pub source_ips: Vec<PrivateSourceConcentration>,
    pub focus: Option<PrivateFocusSummary>,
    pub requests_per_minute_series: Vec<MinuteRequestCount>,
    pub status_class_requests_per_minute_series: Vec<StatusClassMinuteCount>,
    pub minute_buckets_beyond_cap: u64,
}

/// Counts of first path segments; the segments themselves never enter a report.
#[derive(Clone, Copy, Debug, PartialEq, Eq, Structural)]
pub struct SourceSegmentDiversity {
    pub distinct_segments: usize,
    pub distinct_404_segments: Option<usize>,
    pub observations_beyond_cap: u64,
    pub observations_404_beyond_cap: Option<u64>,
    pub observations_without_path: u64,
    pub maximum_segments: usize,
}

#[derive(Clone, Copy, Debug, PartialEq, Eq, Structural)]
pub struct SourceSegmentDiversitySummary {
    pub maximum_404_segments: Option<u64>,
    pub median_404_segments: Option<Median>,
    /// Sources with at least one retained 404 segment.
    pub sources_with_404_segments: Option<usize>,
    pub median_404_segments_among_sources_with_404_segments: Option<Median>,
    pub sources_beyond_cap: usize,
    pub sources_404_beyond_cap: Option<usize>,
    pub observations_beyond_cap: u64,
    pub observations_404_beyond_cap: Option<u64>,
    pub observations_without_path: u64,
    pub retained_sources: usize,
    pub maximum_segments_per_source: usize,
}

/// A value where a capability is available.
pub open spec fn given<T>(available: bool, value: T) -> Option<T> {
    if available {
        Some(value)
    } else {
        None
    }
}

/// Whether code counts are reported exactly where statuses are available.
pub open spec fn codes_reported(r: Option<StatusCodeCounts>, available: bool, codes: CodeModel) -> bool {
    match r {
        Some(c) => available && c@ == codes,
        None => !available,
    }
}

/// Whether a list names every key once, those with more requests first and those with equally
/// many in the order on texts.
pub open spec fn ranked(list: Seq<Seq<char>>, requests: Map<Seq<char>, nat>) -> bool {
    &&& list.no_duplicates()
    &&& list.to_set() == requests.dom()
    &&& forall|i: int, j: int|
        0 <= i < j < list.len() ==> requests[#[trigger] list[i]] > requests[#[trigger] list[j]] || (
        requests[list[i]] == requests[list[j]] && text_before(list[i], list[j]))
}

/// The ranking of a map of counts is unique.
pub proof fn ranking_is_unique(
    a: Seq<Seq<char>>,
    b: Seq<Seq<char>>,
    requests: Map<Seq<char>, nat>,
)
    requires
        ranked(a, requests),
        ranked(b, requests),
    ensures
        a == b,
{
    a.unique_seq_to_set();
    b.unique_seq_to_set();
    lemma_ranked_up_to(a, b, requests, a.len() as int);
    assert(a =~= b);
}

proof fn lemma_ranked_up_to(
    a: Seq<Seq<char>>,
    b: Seq<Seq<char>>,
    requests: Map<Seq<char>, nat>,
    n: int,
)
    requires
        ranked(a, requests),
        ranked(b, requests),
        a.len() == b.len(),
        0 <= n <= a.len(),
    ensures
        forall|i: int| 0 <= i < n ==> a[i] == b[i],
    decreases n,
{
    if n > 0 {
        lemma_ranked_up_to(a, b, requests, n - 1);
        let i = n - 1;
        if a[i] != b[i] {
            assert(a.to_set().contains(a[i]));
            assert(b.to_set().contains(b[i]));
            let j = b.index_of(a[i]);
            let k = a.index_of(b[i]);
            assert(b[j] == a[i]);
            assert(a[k] == b[i]);
            if j < i {
                assert(a[j] == b[j]);
            }
            if k < i {
                assert(a[k] == b[k]);
            }
            crate::text::text_order_is_total(a[i], b[i]);
            assert(requests[b[i]] > requests[b[j]] || (requests[b[i]] == requests[b[j]]
                && text_before(b[i], b[j])));
            assert(requests[a[i]] > requests[a[k]] || (requests[a[i]] == requests[a[k]]
                && text_before(a[i], a[k])));
        }
    }
}

pub open spec fn is_path_summary(
    r: PathConcentrationSummary,
    path: PathModel,
    m: ConcentrationModel,
) -> bool {
    &&& r.requests == path.tally.requests
    &&& r.request_share == (Ratio {
        numerator: path.tally.requests as u64,
        denominator: m.tally.requests as u64,
    })
    &&& r.distinct_source_ips == path.sources.len()
    &&& r.requests_per_source_ip == (Ratio {
        numerator: path.tally.requests as u64,
        denominator: path.sources.len() as u64,
    })
    &&& r.response_status_classes == path.tally.classes
    &&& codes_reported(r.response_status_codes, m.status_available, path.tally.codes)
    &&& r.response_bytes == given(m.response_bytes_available, path.response_bytes as u64)
    &&& r.requests_with_query == path.query.requests_with_query
    &&& r.distinct_query_strings == path.query.strings.len()
    &&& r.query_strings_beyond_tracking_cap == path.query.strings_beyond
    &&& r.distinct_query_keys == path.query.keys.len()
    &&& r.query_keys_beyond_tracking_cap == path.query.keys_beyond
}

/// The key names to report: those retained where asked for, else none.
pub open spec fn reported_keys(query: QueryModel, with_keys: bool) -> Seq<Seq<char>> {
    if with_keys {
        ordered_texts(query.keys)
    } else {
        seq![]
    }
}

pub open spec fn path_names(r: Seq<PrivatePathConcentration>) -> Seq<Seq<char>> {
    r.map_values(|p: PrivatePathConcentration| p.uri_path@)
}

/// Whether every path is reported once, in rank order, with what is kept of it.
pub open spec fn paths_reported(
    r: Seq<PrivatePathConcentration>,
    m: ConcentrationModel,
    with_keys: bool,
) -> bool {
    &&& ranked(path_names(r), path_requests(m.paths.paths))
    &&& forall|i: int|
        0 <= i < r.len() ==> is_path_summary(
            (#[trigger] r[i]).summary,
            m.paths.paths[r[i].uri_path@],
            m,
        ) && texts(r[i].query_keys@) == reported_keys(
            m.paths.paths[r[i].uri_path@].query,
            with_keys,
        )
}

/// Whether a path is the one that was requested most often, and the first of those in the order
/// on texts.
pub open spec fn is_most_requested(paths: Map<Seq<char>, u64>, path: Seq<char>) -> bool {
    &&& paths.dom().contains(path)
    &&& forall|other: Seq<char>| #[trigger]
        paths.dom().contains(other) && other != path ==> paths[other] < paths[path] || (
        paths[other] == paths[path] && text_before(path, other))
}

/// What is reported as the most requested path of a source.
pub open spec fn most_requested_reported(
    r: Option<String>,
    pairs: PairBookModel,
    source: Seq<char>,
) -> bool {
    if pairs.incomplete.contains(source) || pairs.paths_of(source).dom().len() == 0 {
        r is None
    } else {
        r matches Some(path) && is_most_requested(pairs.paths_of(source), path@)
    }
}

pub open spec fn segment_diversity(
    source: SourceModel,
    status_available: bool,
    limit: usize,
) -> SourceSegmentDiversity {
    SourceSegmentDiversity {
        distinct_segments: source.segments.len() as usize,
        distinct_404_segments: given(status_available, source.segments_404.len() as usize),
        observations_beyond_cap: source.segments_beyond_cap as u64,
        observations_404_beyond_cap: given(status_available, source.segments_404_beyond_cap as u64),
        observations_without_path: source.paths_unavailable as u64,
        maximum_segments: limit,
    }
}

pub open spec fn is_source_report(
    r: PrivateSourceConcentration,
    source: SourceModel,
    m: ConcentrationModel,
) -> bool {
    &&& r.path_segment_diversity == Some(
        segment_diversity(source, m.status_available, m.limits.max_source_segments),
    )
    &&& r.requests == source.tally.requests
    &&& most_requested_reported(r.most_requested_uri_path, m.pairs, r.source_ip@)
    &&& r.response_status_classes == source.tally.classes
    &&& codes_reported(r.response_status_codes, m.status_available, source.tally.codes)
    &&& r.response_outcomes == given(m.status_available, outcome_summary(source.tally.classes))
}

pub open spec fn source_names(r: Seq<PrivateSourceConcentration>) -> Seq<Seq<char>> {
    r.map_values(|s: PrivateSourceConcentration| s.source_ip@)
}

/// Whether every source is reported once, in rank order, with what is kept of it.
pub open spec fn sources_reported(
    r: Seq<PrivateSourceConcentration>,
    m: ConcentrationModel,
) -> bool {
    &&& ranked(source_names(r), source_requests(m.sources.sources))
    &&& forall|i: int|
        0 <= i < r.len() ==> is_source_report(
            #[trigger] r[i],
            m.sources.sources[r[i].source_ip@],
            m,
        )
}

/// How many 404 segments each source has, in the order of the sources.
pub open spec fn missed_segments(keys: Seq<Seq<char>>, sources: Map<Seq<char>, SourceModel>) -> Seq<
    u64,
> {
    keys.map_values(|k: Seq<char>| sources[k].segments_404.len() as u64)
}

/// The values that are not zero.
pub open spec fn positive(values: Seq<u64>) -> Seq<u64>
    decreases values.len(),
{
    if values.len() == 0 {
        seq![]
    } else if values.last() > 0 {
        positive(values.drop_last()).push(values.last())
    } else {
        positive(values.drop_last())
    }
}

/// The omissions of segments by source.
pub open spec fn beyond_by_source(sources: Map<Seq<char>, SourceModel>) -> Map<Seq<char>, nat> {
    sources.map_values(|s: SourceModel| s.segments_beyond_cap)
}

pub open spec fn missed_beyond_by_source(sources: Map<Seq<char>, SourceModel>) -> Map<
    Seq<char>,
    nat,
> {
    sources.map_values(|s: SourceModel| s.segments_404_beyond_cap)
}

pub open spec fn without_path_by_source(sources: Map<Seq<char>, SourceModel>) -> Map<
    Seq<char>,
    nat,
> {
    sources.map_values(|s: SourceModel| s.paths_unavailable)
}

/// How many of the keys have a count above zero.
pub open spec fn count_positive(keys: Seq<Seq<char>>, counts: Map<Seq<char>, nat>) -> nat
    decreases keys.len(),
{
    if keys.len() == 0 {
        0
    } else {
        count_positive(keys.drop_last(), counts) + if counts[keys.last()] > 0 {
            1nat
        } else {
            0nat
        }
    }
}

pub open spec fn segment_summary(m: ConcentrationModel) -> SourceSegmentDiversitySummary {
    let sources = m.sources.sources;
    let keys = ordered_texts(sources.dom());
    let missed = missed_segments(keys, sources);
    let available = m.status_available;
    SourceSegmentDiversitySummary {
        maximum_404_segments: if available {
            largest_of(missed)
        } else {
            None
        },
        median_404_segments: if available {
            median_of(missed)
        } else {
            None
        },
        sources_with_404_segments: given(available, positive(missed).len() as usize),
        median_404_segments_among_sources_with_404_segments: if available {
            median_of(positive(missed))
        } else {
            None
        },
        sources_beyond_cap: count_positive(keys, beyond_by_source(sources)) as usize,
        sources_404_beyond_cap: given(
            available,
            count_positive(keys, missed_beyond_by_source(sources)) as usize,
        ),
        observations_beyond_cap: list_sum(keys, beyond_by_source(sources)) as u64,
        observations_404_beyond_cap: given(
            available,
            list_sum(keys, missed_beyond_by_source(sources)) as u64,
        ),
        observations_without_path: list_sum(keys, without_path_by_source(sources)) as u64,
        retained_sources: keys.len() as usize,
        maximum_segments_per_source: m.limits.max_source_segments,
    }
}

/// The share of the ten keys with the most requests.
pub open spec fn is_top_ten_share(
    r: Ratio,
    requests: Map<Seq<char>, nat>,
    total: nat,
) -> bool {
    &&& r.denominator == total
    &&& forall|list: Seq<Seq<char>>| #[trigger]
        ranked(list, requests) ==> r.numerator == list_sum(
            list.take(
                if list.len() < 10 {
                    list.len() as int
                } else {
                    10
                },
            ),
            requests,
        )
}

/// What is reported of the path with the most requests.
pub open spec fn top_path_reported(
    r: Option<PathConcentrationSummary>,
    m: ConcentrationModel,
) -> bool {
    match r {
        None => m.paths.paths.dom().len() == 0,
        Some(summary) => m.paths.paths.dom().len() > 0 && (forall|list: Seq<Seq<char>>| #[trigger]
            ranked(list, path_requests(m.paths.paths)) ==> is_path_summary(
                summary,
                m.paths.paths[list[0]],
                m,
            )),
    }
}

/// One rate for each window.
pub open spec fn rates_reported(
    r: Seq<WindowedRequestRateSummary>,
    windows: Seq<RateWindowModel>,
    without_timestamp: nat,
) -> bool {
    r == windows.map_values(
        |w: RateWindowModel| rate_summary(w.width, w.timeline, without_timestamp as u64),
    )
}

/// The request counts of windows that also keep outcomes.
pub open spec fn rate_parts(windows: Seq<crate::timeline::OutcomeWindowModel>) -> Seq<
    RateWindowModel,
> {
    windows.map_values(
        |w: crate::timeline::OutcomeWindowModel|
            RateWindowModel { width: w.width, timeline: w.timeline },
    )
}

/// One outcome summary for each window, where statuses are available.
pub open spec fn outcome_windows_reported(
    r: Option<Vec<WindowedResponseOutcomeSummary>>,
    m: ConcentrationModel,
) -> bool {
    match r {
        None => !m.status_available,
        Some(list) => {
            &&& m.status_available
            &&& list@.len() == m.clock.windows.len()
            &&& forall|i: int|
                0 <= i < list@.len() ==> is_outcome_summary(
                    #[trigger] list@[i],
                    m.clock.windows[i],
                    m.response_bucket_minimum_requests,
                    m.response_success_share_threshold_percent,
                    m.clock.without_timestamp as u64,
                )
        },
    }
}

/// Whether a focus is summarised without the selector and without observed values.
pub open spec fn sanitized_focus_reported(
    r: Option<SanitizedFocusSummary>,
    m: ConcentrationModel,
) -> bool {
    match r {
        None => m.focus is None,
        Some(s) => m.focus is Some && is_sanitized_focus(s, m.focus.unwrap(), m.focused),
    }
}

pub open spec fn is_sanitized_focus(
    s: SanitizedFocusSummary,
    selector: SelectorModel,
    f: FocusModel,
) -> bool {
    &&& s.focus_kind@ == kind_of(selector)
    &&& s.total_requests == f.tally.requests
    &&& s.distinct_source_ips == f.sources.dom().len()
    &&& s.requests_per_source_ip == (Ratio {
        numerator: f.tally.requests as u64,
        denominator: f.sources.dom().len() as u64,
    })
    &&& s.source_ips_beyond_cap == f.sources_beyond
    &&& s.distinct_uri_paths == f.paths.dom().len()
    &&& s.paths_beyond_cap == f.paths_beyond
    &&& s.peak_requests_per_minute == rate_of(f.minutes).peak
    &&& s.median_requests_per_minute == rate_of(f.minutes).median
    &&& rates_reported(s.request_rates@, f.windows, f.without_timestamp)
    &&& s.requests_with_query == f.query.requests_with_query
    &&& s.distinct_query_strings == f.query.strings.len()
    &&& s.query_strings_beyond_tracking_cap == f.query.strings_beyond
    &&& s.distinct_query_keys == f.query.keys.len()
    &&& s.query_keys_beyond_tracking_cap == f.query.keys_beyond
}

/// Whether a summary says what was measured.
pub open spec fn is_summary(r: RequestConcentrationSummary, m: ConcentrationModel) -> bool {
    let minutes = rate_of(m.clock.minutes.timeline);
    &&& r.source_segment_diversity == Some(segment_summary(m))
    &&& r.total_requests == m.tally.requests
    &&& r.distinct_uri_paths == m.paths.paths.dom().len()
    &&& r.distinct_source_ips == m.sources.sources.dom().len()
    &&& r.requests_without_uri_path == m.paths.missing
    &&& r.requests_without_source_ip == m.sources.missing
    &&& r.paths_beyond_tracking_cap == m.paths.beyond
    &&& r.source_ips_beyond_tracking_cap == m.sources.beyond
    &&& r.source_path_pairs_beyond_tracking_cap == m.pairs.beyond
    &&& top_path_reported(r.top_path, m)
    &&& is_top_ten_share(
        r.top_ten_paths_request_share,
        path_requests(m.paths.paths),
        m.tally.requests,
    )
    &&& is_top_ten_share(
        r.top_ten_source_ips_request_share,
        source_requests(m.sources.sources),
        m.tally.requests,
    )
    &&& r.requests_per_minute == (RequestRateSummary {
        peak_requests_per_minute: minutes.peak,
        median_requests_per_minute: minutes.median,
        peak_to_median_ratio: minutes.ratio,
        observations_without_timestamp: m.clock.without_timestamp as u64,
    })
    &&& rates_reported(r.request_rates@, rate_parts(m.clock.windows), m.clock.without_timestamp)
    &&& r.response_outcomes == given(m.status_available, outcome_summary(m.tally.classes))
    &&& outcome_windows_reported(r.response_outcome_windows, m)
    &&& codes_reported(r.response_status_codes, m.status_available, m.tally.codes)
    &&& sanitized_focus_reported(r.focus, m)
}

pub open spec fn focus_source_names(r: Seq<PrivateFocusSource>) -> Seq<Seq<char>> {
    r.map_values(|s: PrivateFocusSource| s.source_ip@)
}

pub open spec fn focus_path_names(r: Seq<PrivateFocusPath>) -> Seq<Seq<char>> {
    r.map_values(|p: PrivateFocusPath| p.uri_path@)
}

pub open spec fn focus_sources_reported(
    r: Seq<PrivateFocusSource>,
    sources: Map<Seq<char>, TallyModel>,
    status_available: bool,
) -> bool {
    &&& ranked(focus_source_names(r), tally_requests(sources))
    &&& forall|i: int|
        0 <= i < r.len() ==> {
            let t = sources[(#[trigger] r[i]).source_ip@];
            &&& r[i].requests == t.requests
            &&& r[i].response_status_classes == t.classes
            &&& codes_reported(r[i].response_status_codes, status_available, t.codes)
            &&& r[i].response_outcomes == given(status_available, outcome_summary(t.classes))
        }
}

pub open spec fn focus_paths_reported(
    r: Seq<PrivateFocusPath>,
    paths: Map<Seq<char>, TallyModel>,
    status_available: bool,
) -> bool {
    &&& ranked(focus_path_names(r), tally_requests(paths))
    &&& forall|i: int|
        0 <= i < r.len() ==> {
            let t = paths[(#[trigger] r[i]).uri_path@];
            &&& r[i].requests == t.requests
            &&& r[i].response_status_classes == t.classes
            &&& codes_reported(r[i].response_status_codes, status_available, t.codes)
        }
}

pub open spec fn is_private_focus(
    r: PrivateFocusSummary,
    selector: SelectorModel,
    f: FocusModel,
    status_available: bool,
    with_keys: bool,
) -> bool {
    &&& codes_reported(r.response_status_codes, status_available, f.tally.codes)
    &&& r.focus_kind@ == kind_of(selector)
    &&& r.selector@ == display_of(selector)
    &&& r.uri_path@ == display_of(selector)
    &&& r.total_requests == f.tally.requests
    &&& r.distinct_source_ips == f.sources.dom().len()
    &&& r.requests_per_source_ip == (Ratio {
        numerator: f.tally.requests as u64,
        denominator: f.sources.dom().len() as u64,
    })
    &&& r.source_ips_beyond_cap == f.sources_beyond
    &&& focus_paths_reported(r.paths@, f.paths, status_available)
    &&& r.paths_beyond_cap == f.paths_beyond
    &&& r.peak_requests_per_minute == rate_of(f.minutes).peak
    &&& r.median_requests_per_minute == rate_of(f.minutes).median
    &&& r.response_status_classes == f.tally.classes
    &&& focus_sources_reported(r.sources@, f.sources, status_available)
    &&& r.network_prefix_groups@.len() == 0
    &&& r.asn is None
    &&& r.requests_per_minute_series@ == request_series(f.minutes.buckets)
    &&& r.minute_buckets_beyond_cap == f.minutes.beyond_cap
    &&& r.requests_with_query == f.query.requests_with_query
    &&& r.distinct_query_strings == f.query.strings.len()
    &&& r.query_strings_beyond_tracking_cap == f.query.strings_beyond
    &&& r.distinct_query_keys == f.query.keys.len()
    &&& r.query_keys_beyond_tracking_cap == f.query.keys_beyond
    &&& texts(r.query_keys@) == reported_keys(f.query, with_keys)
}

pub open spec fn private_focus_reported(
    r: Option<PrivateFocusSummary>,
    m: ConcentrationModel,
    with_keys: bool,
) -> bool {
    match r {
        None => m.focus is None,
        Some(s) => m.focus is Some && is_private_focus(
            s,
            m.focus.unwrap(),
            m.focused,
            m.status_available,
            with_keys,
        ),
    }
}

/// Whether a private report says what was measured.
pub open spec fn is_private_report(
    r: PrivateRequestConcentrationReport,
    m: ConcentrationModel,
    with_keys: bool,
) -> bool {
    &&& r.report_kind@ == "REQUEST_CONCENTRATION_PRIVATE"@
    &&& r.safety_note@
        == "Private analyst artifact: URI paths and observed connection-peer IPs are included. Request-volume distribution is not a determination of a denial-of-service attempt, attack, abuse, compromise, or attacker identity."@
    &&& is_summary(r.summary, m)
    &&& paths_reported(r.paths@, m, with_keys)
    &&& sources_reported(r.source_ips@, m)
    &&& private_focus_reported(r.focus, m, with_keys)
    &&& r.requests_per_minute_series@ == request_series(m.clock.minutes.timeline.buckets)
    &&& r.status_class_requests_per_minute_series@ == status_series(m.clock.minutes.outcomes)
    &&& r.minute_buckets_beyond_cap == m.clock.minutes.timeline.beyond_cap
}

} // verus!
