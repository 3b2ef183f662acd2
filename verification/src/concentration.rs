//! Deterministic request-volume distribution measurement for streams of request events.
//!
//! These aggregates are triage context only. They do not determine a denial-of-service attempt,
//! attack, abuse, compromise or attacker identity. Tracking is exact for retained keys and stops
//! admitting new keys at fixed bounds; every omission is reported as a count.

use crate::event::{opt_str, WebEvent};
use crate::focus::{selects, FocusModel, FocusSelector, FocusState, SelectorModel};
use crate::numbers::{
    is_ranking, lemma_ranking_covers, median_and_peak, ordered_keys,
    ordered_keys_lists_the_members, rank, ranks_before, NumberMap,
    Ratio,
};
use crate::ordered::{increasing, ordered_texts, TextMap};
use crate::status::{response_outcome_summary, StatusCodeCounts};
use crate::sums::{
    lemma_list_sum_bounded, lemma_list_sum_grows, lemma_list_sum_monotone, list_sum, map_sum,
};
use crate::text::{opt_text, text_before, texts};
use crate::timeline::{
    bucket_of, rate_summary, windowed_rate_summary, OutcomeWindowModel, RateWindowModel,
    WindowedRequestRateSummary, WindowedResponseOutcomeSummary,
};
use crate::tracking::{
    path_requests, source_requests, tally_models, tally_requests, Clock, ClockModel,
    ConcentrationLimits, Observation, PairBook, PairBookModel, PathAccumulator, PathBook,
    PathBookModel, QueryShape, SourceAccumulator, SourceBook, SourceBookModel, Tally, TallyModel,
};
use crate::volume_laws::{adds_up, reports_add_up};
use crate::volume_report::{
    beyond_by_source, codes_reported, count_positive, focus_path_names, focus_paths_reported,
    focus_source_names, focus_sources_reported, is_most_requested, is_path_summary,
    is_private_report, is_source_report, is_summary, is_top_ten_share, missed_beyond_by_source,
    missed_segments, most_requested_reported, outcome_windows_reported, path_names, paths_reported,
    positive, private_focus_reported, ranked, ranking_is_unique, rate_parts, rates_reported,
    reported_keys, sanitized_focus_reported, segment_diversity, segment_summary, source_names,
    sources_reported, top_path_reported, given, without_path_by_source, PathConcentrationSummary,
    PrivateFocusPath, PrivateFocusSource, PrivateFocusSummary, PrivatePathConcentration,
    PrivateRequestConcentrationReport, PrivateSourceConcentration, RequestConcentrationSummary,
    RequestRateSummary, SanitizedFocusSummary, SourceSegmentDiversity,
    SourceSegmentDiversitySummary,
};
use vstd::prelude::*;

verus! {

pub const DEFAULT_MAX_TRACKED_PATHS: usize = 100_000;

pub const DEFAULT_MAX_TRACKED_SOURCE_IPS: usize = 1_000_000;

/// Separate bound for the focus, so that it stays useful when the general one is reached.
pub const DEFAULT_MAX_FOCUS_SOURCE_IPS: usize = 1_000_000;

pub const DEFAULT_MAX_FOCUS_PATHS: usize = 1_000_000;

pub const DEFAULT_MAX_QUERY_STRINGS_PER_PATH: usize = 100_000;

pub const DEFAULT_MAX_QUERY_KEYS_PER_PATH: usize = 10_000;

/// Roughly 1.9 years of one-minute buckets.
pub const DEFAULT_MAX_MINUTE_BUCKETS: usize = 1_000_000;

/// One minute, ten minutes, one hour and one day.
pub const DEFAULT_RATE_WINDOW_SECONDS: [u64; 4] = [60, 600, 3_600, 86_400];

/// Smaller buckets are left out of the response outcome extremes.
pub const DEFAULT_RESPONSE_BUCKET_MINIMUM_REQUESTS: u64 = 10;

/// Descriptive counting threshold only.
pub const DEFAULT_RESPONSE_SUCCESS_SHARE_THRESHOLD_PERCENT: u8 = 50;

pub const DEFAULT_MAX_SOURCE_SEGMENTS: usize = 256;

pub const DEFAULT_MAX_TRACKED_SOURCE_PATH_PAIRS: usize = 2_000_000;

pub const DEFAULT_FOCUS_IPV4_GROUP_PREFIX: u8 = 24;

pub const DEFAULT_FOCUS_IPV6_GROUP_PREFIX: u8 = 48;

impl ConcentrationLimits {
    pub open spec fn standard() -> ConcentrationLimits {
        ConcentrationLimits {
            max_source_segments: DEFAULT_MAX_SOURCE_SEGMENTS,
            max_paths: DEFAULT_MAX_TRACKED_PATHS,
            max_source_ips: DEFAULT_MAX_TRACKED_SOURCE_IPS,
            max_focus_source_ips: DEFAULT_MAX_FOCUS_SOURCE_IPS,
            max_focus_paths: DEFAULT_MAX_FOCUS_PATHS,
            max_source_path_pairs: DEFAULT_MAX_TRACKED_SOURCE_PATH_PAIRS,
            max_minute_buckets: DEFAULT_MAX_MINUTE_BUCKETS,
            max_query_strings_per_path: DEFAULT_MAX_QUERY_STRINGS_PER_PATH,
            max_query_keys_per_path: DEFAULT_MAX_QUERY_KEYS_PER_PATH,
            max_status_codes_per_entity: crate::status::DEFAULT_MAX_STATUS_CODES_PER_ENTITY,
        }
    }
}

impl Default for ConcentrationLimits {
    fn default() -> (r: Self)
        ensures
            r == ConcentrationLimits::standard(),
    {
        ConcentrationLimits {
            max_source_segments: DEFAULT_MAX_SOURCE_SEGMENTS,
            max_paths: DEFAULT_MAX_TRACKED_PATHS,
            max_source_ips: DEFAULT_MAX_TRACKED_SOURCE_IPS,
            max_focus_source_ips: DEFAULT_MAX_FOCUS_SOURCE_IPS,
            max_focus_paths: DEFAULT_MAX_FOCUS_PATHS,
            max_source_path_pairs: DEFAULT_MAX_TRACKED_SOURCE_PATH_PAIRS,
            max_minute_buckets: DEFAULT_MAX_MINUTE_BUCKETS,
            max_query_strings_per_path: DEFAULT_MAX_QUERY_STRINGS_PER_PATH,
            max_query_keys_per_path: DEFAULT_MAX_QUERY_KEYS_PER_PATH,
            max_status_codes_per_entity: crate::status::DEFAULT_MAX_STATUS_CODES_PER_ENTITY,
        }
    }
}

/// The usable widths of a list, each once, in increasing order: not zero, and no more than a
/// signed number of seconds can hold.
pub open spec fn normalized(widths: Seq<u64>) -> Seq<u64> {
    ordered_keys(usable_widths(widths)).map_values(|k: i64| k as u64)
}

pub open spec fn usable_widths(widths: Seq<u64>) -> Set<i64> {
    Set::new(|k: i64| k > 0 && widths.contains(k as u64))
}

pub fn normalize_rate_windows(widths: &[u64]) -> (r: Vec<u64>)
    ensures
        r@ == normalized(widths@),
        forall|i: int| 0 <= i < r@.len() ==> 0 < #[trigger] r@[i] <= i64::MAX,
{
    let mut kept: NumberMap<()> = NumberMap::new();
    let mut i: usize = 0;
    while i < widths.len()
        invariant
            i <= widths@.len(),
            kept.wf(),
            forall|k: i64| #[trigger]
                kept@.dom().contains(k) ==> k > 0 && widths@.contains(k as u64),
            forall|j: int|
                0 <= j < i && 0 < #[trigger] widths@[j] <= i64::MAX ==> kept@.dom().contains(
                    widths@[j] as i64,
                ),
        decreases widths.len() - i,
    {
        let width = widths[i];
        if width != 0 && width <= i64::MAX as u64 {
            assert(widths@.contains(width));
            kept.insert(width as i64, ());
        }
        i = i + 1;
    }
    proof {
        assert(kept@.dom() =~= usable_widths(widths@)) by {
            assert forall|k: i64| usable_widths(widths@).contains(k) implies kept@.dom().contains(
                k,
            ) by {
                let j = widths@.index_of(k as u64);
                assert(widths@[j] == k as u64);
            }
        }
        kept.lemma_order();
        kept.lemma_positions();
    }
    let mut r: Vec<u64> = Vec::new();
    let count = kept.len();
    let mut j: usize = 0;
    while j < count
        invariant
            kept.wf(),
            count == kept.key_seq().len(),
            kept.key_seq() == ordered_keys(usable_widths(widths@)),
            forall|k: i64| #[trigger] kept@.dom().contains(k) ==> k > 0,
            j <= count,
            r@ == normalized(widths@).take(j as int),
            forall|i: int| 0 <= i < r@.len() ==> 0 < #[trigger] r@[i] <= i64::MAX,
        decreases count - j,
    {
        let width = kept.key_at(j);
        r.push(width as u64);
        assert(normalized(widths@).take(j + 1) =~= normalized(widths@).take(j as int).push(
            normalized(widths@)[j as int],
        ));
        j = j + 1;
    }
    assert(normalized(widths@).take(j as int) =~= normalized(widths@));
    r
}

/// The widths kept are exactly the usable ones, each once and in increasing order.
pub proof fn normalization_keeps_usable_widths(widths: Seq<u64>, width: u64)
    ensures
        normalized(widths).contains(width) == (0 < width <= i64::MAX && widths.contains(width)),
        forall|i: int, j: int|
            0 <= i < j < normalized(widths).len() ==> (#[trigger] normalized(widths)[i]) < (
            #[trigger] normalized(widths)[j]),
{
    let list = ordered_keys(usable_widths(widths));
    let narrowed = widths.map_values(|w: u64| w as i64).to_set();
    assert(usable_widths(widths).subset_of(narrowed)) by {
        assert forall|k: i64| usable_widths(widths).contains(k) implies narrowed.contains(k) by {
            let i = widths.index_of(k as u64);
            assert(widths.map_values(|w: u64| w as i64)[i] == k);
        }
    }
    vstd::set_lib::lemma_set_subset_finite(narrowed, usable_widths(widths));
    ordered_keys_lists_the_members(usable_widths(widths));
    assert forall|i: int| 0 <= i < list.len() implies #[trigger] list[i] > 0 by {
        assert(list.to_set().contains(list[i]));
    }
    if normalized(widths).contains(width) {
        let i = normalized(widths).index_of(width);
        assert(list.to_set().contains(list[i]));
    }
    if 0 < width <= i64::MAX && widths.contains(width) {
        assert(usable_widths(widths).contains(width as i64));
        assert(list.contains(width as i64));
        let i = list.index_of(width as i64);
        assert(normalized(widths)[i] == width);
    }
}

/// What the measurement reads of an event.
pub open spec fn observation(event: WebEvent) -> Observation {
    Observation {
        time: event.timestamp,
        source: opt_text(event.source_ip),
        path: opt_text(event.uri_path),
        query: opt_text(event.uri_query),
        status: event.status,
        bytes: event.response_bytes,
    }
}

/// A one-pass bounded accumulator. A key is admitted at its first observation; reports are sorted
/// independently of the order of observation.
#[derive(Clone, Debug)]
pub struct RequestConcentration {
    limits: ConcentrationLimits,
    response_bytes_available: bool,
    status_available: bool,
    response_bucket_minimum_requests: u64,
    response_success_share_threshold_percent: u8,
    tally: Tally,
    paths: PathBook,
    sources: SourceBook,
    pairs: PairBook,
    clock: Clock,
    focus: Option<FocusSelector>,
    focused: FocusState,
}

/// The mathematical value of a `RequestConcentration`.
pub struct ConcentrationModel {
    pub limits: ConcentrationLimits,
    pub response_bytes_available: bool,
    pub status_available: bool,
    pub response_bucket_minimum_requests: u64,
    pub response_success_share_threshold_percent: u8,
    pub tally: TallyModel,
    pub paths: PathBookModel,
    pub sources: SourceBookModel,
    pub pairs: PairBookModel,
    pub clock: ClockModel,
    pub focus: Option<SelectorModel>,
    pub focused: FocusModel,
}

pub open spec fn opt_selector(selector: Option<FocusSelector>) -> Option<SelectorModel> {
    match selector {
        Some(s) => Some(s@),
        None => None,
    }
}

impl View for RequestConcentration {
    type V = ConcentrationModel;

    closed spec fn view(&self) -> ConcentrationModel {
        ConcentrationModel {
            limits: self.limits,
            response_bytes_available: self.response_bytes_available,
            status_available: self.status_available,
            response_bucket_minimum_requests: self.response_bucket_minimum_requests,
            response_success_share_threshold_percent: self.response_success_share_threshold_percent,
            tally: self.tally@,
            paths: self.paths@,
            sources: self.sources@,
            pairs: self.pairs@,
            clock: self.clock@,
            focus: opt_selector(self.focus),
            focused: self.focused@,
        }
    }
}

impl ConcentrationModel {
    /// Nothing observed yet.
    pub open spec fn none(
        response_bytes_available: bool,
        status_available: bool,
        limits: ConcentrationLimits,
        widths: Seq<u64>,
    ) -> ConcentrationModel {
        ConcentrationModel {
            limits,
            response_bytes_available,
            status_available,
            response_bucket_minimum_requests: DEFAULT_RESPONSE_BUCKET_MINIMUM_REQUESTS,
            response_success_share_threshold_percent:
                DEFAULT_RESPONSE_SUCCESS_SHARE_THRESHOLD_PERCENT,
            tally: TallyModel {
                codes: crate::status::CodeModel::none(limits.max_status_codes_per_entity as nat),
                ..TallyModel::none()
            },
            paths: PathBookModel::none(),
            sources: SourceBookModel::none(),
            pairs: PairBookModel::none(),
            clock: ClockModel::none(normalized(widths)),
            focus: None,
            focused: FocusModel::none(
                normalized(widths),
                limits.max_status_codes_per_entity as nat,
            ),
        }
    }

    /// Whether the focus selects a request.
    pub open spec fn selected(self, o: Observation) -> bool {
        self.focus matches Some(selector) && selects(selector, o.path, o.source)
    }

    /// The state after one more request.
    pub open spec fn observed(self, o: Observation) -> ConcentrationModel {
        let source_admitted = o.source matches Some(s) && self.sources.admits(
            s,
            self.limits.max_source_ips as nat,
        );
        let paths = self.paths.observed(
            o,
            source_admitted,
            self.response_bytes_available,
            self.limits,
        );
        let sources = self.sources.observed(o, self.limits);
        let paired = o.path is Some && o.source is Some && paths.paths.dom().contains(
            o.path.unwrap(),
        ) && sources.sources.dom().contains(o.source.unwrap());
        ConcentrationModel {
            tally: self.tally.recorded(
                o.status,
                self.limits.max_status_codes_per_entity as nat,
            ),
            clock: self.clock.observed(o, self.limits.max_minute_buckets as nat),
            paths,
            sources,
            pairs: if paired {
                self.pairs.paired(
                    o.source.unwrap(),
                    o.path.unwrap(),
                    self.limits.max_source_path_pairs as nat,
                )
            } else {
                self.pairs
            },
            focused: if self.selected(o) {
                self.focused.observed(o, !(self.focus.unwrap() is ExactPath), self.limits)
            } else {
                self.focused
            },
            ..self
        }
    }

    /// Whether one more request can still be counted.
    pub open spec fn room(self, o: Observation) -> bool {
        &&& self.tally.requests < u64::MAX
        &&& self.paths.room(o, self.response_bytes_available)
        &&& self.selected(o) ==> self.focused.query.room(o.query)
    }

    /// The state after each request of a list in turn.
    pub open spec fn observed_all(self, list: Seq<Observation>) -> ConcentrationModel
        decreases list.len(),
    {
        if list.len() == 0 {
            self
        } else {
            self.observed_all(list.drop_last()).observed(list.last())
        }
    }
}

impl RequestConcentration {
    pub closed spec fn wf(&self) -> bool {
        let n = self.tally.requests as nat;
        &&& self.tally@.consistent()
        &&& self.paths.wf(n)
        &&& self.sources.wf(n)
        &&& self.pairs.wf(n)
        &&& self.clock.wf(n)
        &&& self.focused.wf(n)
        &&& self.focus matches Some(selector) ==> selector.wf()
    }

    pub fn new(response_bytes_available: bool) -> (r: Self)
        ensures
            r.wf(),
            r@ == ConcentrationModel::none(
                response_bytes_available,
                true,
                ConcentrationLimits::standard(),
                DEFAULT_RATE_WINDOW_SECONDS@,
            ),
    {
        Self::with_limits_and_rate_windows(
            response_bytes_available,
            ConcentrationLimits::default(),
            &DEFAULT_RATE_WINDOW_SECONDS,
        )
    }

    pub fn with_limits(response_bytes_available: bool, limits: ConcentrationLimits) -> (r: Self)
        ensures
            r.wf(),
            r@ == ConcentrationModel::none(
                response_bytes_available,
                true,
                limits,
                DEFAULT_RATE_WINDOW_SECONDS@,
            ),
    {
        Self::with_limits_and_rate_windows(
            response_bytes_available,
            limits,
            &DEFAULT_RATE_WINDOW_SECONDS,
        )
    }

    pub fn with_capabilities(response_bytes_available: bool, status_available: bool) -> (r: Self)
        ensures
            r.wf(),
            r@ == ConcentrationModel::none(
                response_bytes_available,
                status_available,
                ConcentrationLimits::standard(),
                DEFAULT_RATE_WINDOW_SECONDS@,
            ),
    {
        Self::with_capabilities_and_rate_windows(
            response_bytes_available,
            status_available,
            ConcentrationLimits::default(),
            &DEFAULT_RATE_WINDOW_SECONDS,
        )
    }

    /// Unusable widths are ignored; the others are sorted, each kept once.
    pub fn with_limits_and_rate_windows(
        response_bytes_available: bool,
        limits: ConcentrationLimits,
        rate_window_seconds: &[u64],
    ) -> (r: Self)
        ensures
            r.wf(),
            r@ == ConcentrationModel::none(
                response_bytes_available,
                true,
                limits,
                rate_window_seconds@,
            ),
    {
        Self::with_capabilities_and_rate_windows(
            response_bytes_available,
            true,
            limits,
            rate_window_seconds,
        )
    }

    pub fn with_capabilities_and_rate_windows(
        response_bytes_available: bool,
        status_available: bool,
        limits: ConcentrationLimits,
        rate_window_seconds: &[u64],
    ) -> (r: Self)
        ensures
            r.wf(),
            r@ == ConcentrationModel::none(
                response_bytes_available,
                status_available,
                limits,
                rate_window_seconds@,
            ),
    {
        let widths = normalize_rate_windows(rate_window_seconds);
        let mut tally = Tally::new();
        tally.codes = crate::status::StatusCodeCounts::with_maximum(
            limits.max_status_codes_per_entity,
        );
        RequestConcentration {
            limits,
            response_bytes_available,
            status_available,
            response_bucket_minimum_requests: DEFAULT_RESPONSE_BUCKET_MINIMUM_REQUESTS,
            response_success_share_threshold_percent:
                DEFAULT_RESPONSE_SUCCESS_SHARE_THRESHOLD_PERCENT,
            tally,
            paths: PathBook::new(),
            sources: SourceBook::new(),
            pairs: PairBook::new(),
            clock: Clock::new(&widths),
            focus: None,
            focused: FocusState::new(&widths, limits.max_status_codes_per_entity),
        }
    }

    /// Sets the smallest bucket that counts for the response outcome extremes.
    pub fn set_response_bucket_minimum_requests(&mut self, minimum: u64)
        requires
            old(self).wf(),
        ensures
            final(self).wf(),
            final(self)@ == (ConcentrationModel {
                response_bucket_minimum_requests: minimum,
                ..old(self)@
            }),
    {
        self.response_bucket_minimum_requests = minimum;
    }

    /// Sets the percentage below which eligible buckets are counted. A setting above one hundred
    /// is rejected, never clamped.
    pub fn set_response_success_share_threshold_percent(&mut self, percent: u8) -> (r: Result<
        (),
        &'static str,
    >)
        requires
            old(self).wf(),
        ensures
            final(self).wf(),
            r is Ok == (percent <= 100),
            r is Ok ==> final(self)@ == (ConcentrationModel {
                response_success_share_threshold_percent: percent,
                ..old(self)@
            }),
            r matches Err(e) ==> final(self)@ == old(self)@ && e@
                == "response success share threshold must be 0 through 100 percent"@,
    {
        if percent > 100 {
            return Err("response success share threshold must be 0 through 100 percent");
        }
        self.response_success_share_threshold_percent = percent;
        Ok(())
    }

    /// Focuses subsequent observations.
    pub fn focus_on(&mut self, selector: FocusSelector)
        requires
            old(self).wf(),
            selector.wf(),
        ensures
            final(self).wf(),
            final(self)@ == (ConcentrationModel { focus: Some(selector@), ..old(self)@ }),
    {
        self.focus = Some(selector);
    }

    /// Focuses subsequent observations on one exact path.
    pub fn focus_on_path(&mut self, path: &str)
        requires
            old(self).wf(),
        ensures
            final(self).wf(),
            final(self)@ == (ConcentrationModel {
                focus: Some(SelectorModel::ExactPath(path@)),
                ..old(self)@
            }),
    {
        self.focus_on(FocusSelector::ExactPath(path.to_owned()));
    }

    fn is_selected(&self, path: Option<&str>, source: Option<&str>) -> (r: bool)
        requires
            self.wf(),
        ensures
            r == (self@.focus matches Some(selector) && selects(
                selector,
                opt_str(path),
                opt_str(source),
            )),
    {
        match &self.focus {
            Some(selector) => selector.matches(path, source),
            None => false,
        }
    }

    /// Whether one more request can be counted without any count becoming too large.
    pub fn can_observe(&self, event: &WebEvent) -> (r: bool)
        requires
            self.wf(),
        ensures
            r == self@.room(observation(*event)),
    {
        let path = text_ref(&event.uri_path);
        let source = text_ref(&event.source_ip);
        let query = text_ref(&event.uri_query);
        if self.tally.requests == u64::MAX {
            return false;
        }
        if let Some(key) = path {
            if let Some(item) = self.paths.paths.get(key) {
                assert(self@.paths.paths[key@] == item@);
                let bytes = if self.response_bytes_available {
                    match event.response_bytes {
                        Some(bytes) => bytes,
                        None => 0,
                    }
                } else {
                    0
                };
                if bytes > u64::MAX - item.response_bytes || !item.query.has_room(query) {
                    return false;
                }
            }
        }
        !self.is_selected(path, source) || self.focused.query.has_room(query)
    }

    pub fn observe(&mut self, event: &WebEvent)
        requires
            old(self).wf(),
            old(self)@.room(observation(*event)),
        ensures
            final(self).wf(),
            final(self)@ == old(self)@.observed(observation(*event)),
    {
        let ghost o = observation(*event);
        let ghost n = self.tally.requests as nat;
        let ghost before = *self;
        let path = text_ref(&event.uri_path);
        let source = text_ref(&event.source_ip);
        let query = text_ref(&event.uri_query);
        let selected = self.is_selected(path, source);
        let track_paths = match &self.focus {
            Some(FocusSelector::ExactPath(_)) => false,
            _ => true,
        };
        self.tally.record(event.status, self.limits.max_status_codes_per_entity);
        self.clock.observe_minute(
            event.timestamp,
            event.status,
            self.limits.max_minute_buckets,
            Ghost(o),
            Ghost(n),
        );
        let source_admitted = self.sources.admits(source, self.limits.max_source_ips, Ghost(n));
        self.paths.track_path(
            path,
            source,
            event.status,
            event.response_bytes,
            query,
            source_admitted,
            self.response_bytes_available,
            &self.limits,
            Ghost(o),
            Ghost(n),
        );
        self.sources.track_source_ip(source, event.status, path, &self.limits, Ghost(o), Ghost(n));
        if let (Some(p), Some(s)) = (path, source) {
            proof {
                assert(self.paths@.paths.dom() =~= self.paths.paths@.dom());
                assert(self.sources@.sources.dom() =~= self.sources.sources@.dom());
            }
            if self.paths.paths.contains_key(p) && self.sources.sources.contains_key(s) {
                self.pairs.track_source_path_pair(
                    s,
                    p,
                    self.limits.max_source_path_pairs,
                    Ghost(n),
                );
            }
        }
        assert(self.pairs.wf(n + 1));
        if selected {
            self.focused.observe(
                event.timestamp,
                source,
                path,
                query,
                event.status,
                track_paths,
                &self.limits,
                Ghost(o),
                Ghost(n),
            );
        }
    }
}

/// The text of an optional string, borrowed.
pub fn text_ref(value: &Option<String>) -> (r: Option<&str>)
    ensures
        opt_str(r) == opt_text(*value),
{
    match value {
        Some(text) => Some(text.as_str()),
        None => None,
    }
}

/// The keys of a map in the order of a ranking of its counts.
pub open spec fn listed(keys: Seq<Seq<char>>, order: Seq<usize>) -> Seq<Seq<char>> {
    order.map_values(|p: usize| keys[p as int])
}

/// A ranking of positions ranks the keys, where the keys stand in the order on texts.
pub proof fn lemma_listed_is_ranked(
    keys: Seq<Seq<char>>,
    counts: Seq<u64>,
    order: Seq<usize>,
    requests: Map<Seq<char>, nat>,
)
    requires
        increasing(keys),
        keys.no_duplicates(),
        keys.to_set() == requests.dom(),
        counts.len() == keys.len(),
        is_ranking(order, counts),
        forall|i: int| 0 <= i < keys.len() ==> counts[i] == requests[#[trigger] keys[i]],
    ensures
        ranked(listed(keys, order), requests),
        forall|i: int| 0 <= i < order.len() ==> (#[trigger] order[i]) < keys.len(),
{
    let list = listed(keys, order);
    lemma_ranking_covers(order, counts);
    assert forall|i: int, j: int| 0 <= i < j < list.len() implies requests[#[trigger] list[i]]
        > requests[#[trigger] list[j]] || (requests[list[i]] == requests[list[j]] && text_before(
        list[i],
        list[j],
    )) by {
        assert(ranks_before(counts, order[i] as int, order[j] as int));
        assert(counts[order[i] as int] == requests[keys[order[i] as int]]);
        assert(counts[order[j] as int] == requests[keys[order[j] as int]]);
    }
    assert forall|i: int, j: int| 0 <= i < list.len() && 0 <= j < list.len() && i != j implies list[i]
        != list[j] by {
        assert(order[i] != order[j]);
        assert(keys[order[i] as int] != keys[order[j] as int]);
    }
    assert(list.to_set() =~= requests.dom()) by {
        assert forall|k: Seq<char>| list.to_set().contains(k) == requests.dom().contains(k) by {
            if list.to_set().contains(k) {
                let i = list.index_of(k);
                assert(list[i] == k);
                assert(keys[order[i] as int] == k);
                assert(keys.to_set().contains(k));
            }
            if requests.dom().contains(k) {
                assert(keys.to_set().contains(k));
                let p = keys.index_of(k);
                assert(keys[p] == k);
                assert(crate::numbers::lists(order, p));
                let i = choose|i: int| 0 <= i < order.len() && #[trigger] order[i] == p;
                assert(list[i] == k);
            }
        }
    }
}

/// The positions of the tallies of a map, in rank order.
fn ranked_tallies(map: &TextMap<Tally>) -> (r: Vec<usize>)
    requires
        map.wf(),
    ensures
        ranked(listed(map.key_seq(), r@), tally_requests(tally_models(map@))),
        r@.len() == map.key_seq().len(),
        forall|i: int| 0 <= i < r@.len() ==> (#[trigger] r@[i]) < map.key_seq().len(),
{
    let mut counts: Vec<u64> = Vec::new();
    let count = map.len();
    let mut i: usize = 0;
    proof {
        map.lemma_positions();
    }
    while i < count
        invariant
            map.wf(),
            count == map.key_seq().len(),
            i <= count,
            counts@.len() == i,
            forall|j: int|
                0 <= j < i ==> #[trigger] counts@[j] == map@[map.key_seq()[j]].requests,
        decreases count - i,
    {
        counts.push(map.value_at(i).requests);
        i = i + 1;
    }
    let order = rank(&counts);
    proof {
        let requests = tally_requests(tally_models(map@));
        assert(requests.dom() =~= map@.dom());
        assert forall|j: int| 0 <= j < map.key_seq().len() implies counts@[j] == requests[#[trigger] map.key_seq()[j]] by {
            assert(map@.dom().contains(map.key_seq()[j]));
            assert(counts@[j] == map@[map.key_seq()[j]].requests);
        }
        lemma_listed_is_ranked(map.key_seq(), counts@, order@, requests);
    }
    order
}

/// A copy of code counts where statuses are available.
fn codes_when(available: bool, codes: &StatusCodeCounts) -> (r: Option<StatusCodeCounts>)
    ensures
        codes_reported(r, available, codes@),
{
    if available {
        Some(codes.copy())
    } else {
        None
    }
}

fn keys_when(with_keys: bool, query: &QueryShape) -> (r: Vec<String>)
    requires
        query.keys.wf(),
    ensures
        texts(r@) == reported_keys(query@, with_keys),
{
    if with_keys {
        proof {
            query.keys.lemma_order();
        }
        query.keys.to_list()
    } else {
        let r: Vec<String> = Vec::new();
        assert(texts(r@) =~= Seq::<Seq<char>>::empty());
        r
    }
}

/// The sum of the first ten counts of a ranking.
fn top_ten(counts: &Vec<u64>, order: &Vec<usize>, keys: Ghost<Seq<Seq<char>>>, requests: Ghost<
    Map<Seq<char>, nat>,
>) -> (r: u64)
    requires
        counts@.len() == keys@.len(),
        order@.len() == keys@.len(),
        forall|i: int| 0 <= i < order@.len() ==> (#[trigger] order@[i]) < keys@.len(),
        forall|i: int| 0 <= i < keys@.len() ==> counts@[i] == requests@[#[trigger] keys@[i]],
        ranked(listed(keys@, order@), requests@),
        requests@.dom().finite(),
        map_sum(requests@) <= u64::MAX,
    ensures
        forall|total: nat|
            is_top_ten_share(
                #[trigger] share_ratio(r, total),
                requests@,
                total,
            ) || total > u64::MAX,
{
    let ghost list = listed(keys@, order@);
    let limit: usize = if order.len() < 10 {
        order.len()
    } else {
        10
    };
    proof {
        assert forall|i: int| 0 <= i < list.len() implies requests@.dom().contains(#[trigger] list[i]) by {
            assert(list.to_set().contains(list[i]));
        }
        lemma_list_sum_bounded(list, requests@);
    }
    let mut sum: u64 = 0;
    let mut i: usize = 0;
    while i < limit
        invariant
            list == listed(keys@, order@),
            i <= limit <= order@.len(),
            counts@.len() == keys@.len(),
            order@.len() == keys@.len(),
            forall|i: int| 0 <= i < order@.len() ==> (#[trigger] order@[i]) < keys@.len(),
            forall|i: int| 0 <= i < keys@.len() ==> counts@[i] == requests@[#[trigger] keys@[i]],
            list_sum(list, requests@) <= u64::MAX,
            sum == list_sum(list.take(i as int), requests@),
        decreases limit - i,
    {
        proof {
            assert(order@[i as int] < keys@.len());
            assert(list.take(i + 1).drop_last() =~= list.take(i as int));
            lemma_list_sum_grows(list, requests@, i + 1);
            assert(list[i as int] == keys@[order@[i as int] as int]);
            assert(counts@[order@[i as int] as int] == requests@[keys@[order@[i as int] as int]]);
        }
        sum = sum + counts[order[i]];
        i = i + 1;
    }
    proof {
        assert forall|total: nat| total <= u64::MAX implies is_top_ten_share(
            #[trigger] share_ratio(sum, total),
            requests@,
            total,
        ) by {
            assert forall|other: Seq<Seq<char>>| #[trigger] ranked(other, requests@) implies sum
                == list_sum(
                other.take(
                    if other.len() < 10 {
                        other.len() as int
                    } else {
                        10
                    },
                ),
                requests@,
            ) by {
                ranking_is_unique(list, other, requests@);
            }
        }
    }
    sum
}

pub open spec fn share_ratio(count: u64, total: nat) -> Ratio {
    Ratio { numerator: count, denominator: total as u64 }
}

impl RequestConcentration {
    fn share(&self, count: u64) -> (r: Ratio)
        ensures
            r == share_ratio(count, self@.tally.requests),
    {
        Ratio { numerator: count, denominator: self.tally.requests }
    }

    fn path_summary(&self, item: &PathAccumulator) -> (r: PathConcentrationSummary)
        requires
            item.wf(),
        ensures
            is_path_summary(r, item@, self@),
    {
        let sources = item.sources.len();
        PathConcentrationSummary {
            requests: item.tally.requests,
            request_share: self.share(item.tally.requests),
            distinct_source_ips: sources,
            requests_per_source_ip: Ratio {
                numerator: item.tally.requests,
                denominator: sources as u64,
            },
            response_status_classes: item.tally.classes,
            response_status_codes: codes_when(self.status_available, &item.tally.codes),
            response_bytes: if self.response_bytes_available {
                Some(item.response_bytes)
            } else {
                None
            },
            requests_with_query: item.query.requests_with_query,
            distinct_query_strings: item.query.strings.len(),
            query_strings_beyond_tracking_cap: item.query.strings_beyond,
            distinct_query_keys: item.query.keys.len(),
            query_keys_beyond_tracking_cap: item.query.keys_beyond,
        }
    }

    fn path_counts(&self) -> (r: Vec<u64>)
        requires
            self.wf(),
        ensures
            r@.len() == self.paths.paths.key_seq().len(),
            forall|i: int|
                0 <= i < r@.len() ==> r@[i] == path_requests(self@.paths.paths)[#[trigger] self.paths.paths.key_seq()[i]],
    {
        let mut counts: Vec<u64> = Vec::new();
        let map = &self.paths.paths;
        let count = map.len();
        let mut i: usize = 0;
        while i < count
            invariant
                self.wf(),
                *map == self.paths.paths,
                map.wf(),
                count == map.key_seq().len(),
                i <= count,
                counts@.len() == i,
                forall|j: int|
                    0 <= j < i ==> counts@[j] == path_requests(self@.paths.paths)[#[trigger] map.key_seq()[j]],
            decreases count - i,
        {
            proof {
                map.lemma_positions();
                assert(map@.dom().contains(map.key_seq()[i as int]));
            }
            counts.push(map.value_at(i).tally.requests);
            i = i + 1;
        }
        counts
    }

    fn source_counts(&self) -> (r: Vec<u64>)
        requires
            self.wf(),
        ensures
            r@.len() == self.sources.sources.key_seq().len(),
            forall|i: int|
                0 <= i < r@.len() ==> r@[i] == source_requests(self@.sources.sources)[#[trigger] self.sources.sources.key_seq()[i]],
    {
        let mut counts: Vec<u64> = Vec::new();
        let map = &self.sources.sources;
        let count = map.len();
        let mut i: usize = 0;
        while i < count
            invariant
                self.wf(),
                *map == self.sources.sources,
                map.wf(),
                count == map.key_seq().len(),
                i <= count,
                counts@.len() == i,
                forall|j: int|
                    0 <= j < i ==> counts@[j] == source_requests(self@.sources.sources)[#[trigger] map.key_seq()[j]],
            decreases count - i,
        {
            proof {
                map.lemma_positions();
                assert(map@.dom().contains(map.key_seq()[i as int]));
            }
            counts.push(map.value_at(i).tally.requests);
            i = i + 1;
        }
        counts
    }

    /// The positions of the paths, in rank order.
    fn sorted_paths(&self, counts: &Vec<u64>) -> (r: Vec<usize>)
        requires
            self.wf(),
            counts@.len() == self.paths.paths.key_seq().len(),
            forall|i: int|
                0 <= i < counts@.len() ==> counts@[i] == path_requests(self@.paths.paths)[#[trigger] self.paths.paths.key_seq()[i]],
        ensures
            ranked(listed(self.paths.paths.key_seq(), r@), path_requests(self@.paths.paths)),
            r@.len() == self.paths.paths.key_seq().len(),
            forall|i: int| 0 <= i < r@.len() ==> (#[trigger] r@[i]) < self.paths.paths.key_seq().len(),
    {
        let order = rank(counts);
        proof {
            self.paths.paths.lemma_positions();
            assert(path_requests(self@.paths.paths).dom() =~= self.paths.paths@.dom());
            lemma_listed_is_ranked(
                self.paths.paths.key_seq(),
                counts@,
                order@,
                path_requests(self@.paths.paths),
            );
        }
        order
    }

    /// The positions of the sources, in rank order.
    fn sorted_sources(&self, counts: &Vec<u64>) -> (r: Vec<usize>)
        requires
            self.wf(),
            counts@.len() == self.sources.sources.key_seq().len(),
            forall|i: int|
                0 <= i < counts@.len() ==> counts@[i] == source_requests(self@.sources.sources)[#[trigger] self.sources.sources.key_seq()[i]],
        ensures
            ranked(listed(self.sources.sources.key_seq(), r@), source_requests(self@.sources.sources)),
            r@.len() == self.sources.sources.key_seq().len(),
            forall|i: int| 0 <= i < r@.len() ==> (#[trigger] r@[i]) < self.sources.sources.key_seq().len(),
    {
        let order = rank(counts);
        proof {
            self.sources.sources.lemma_positions();
            assert(source_requests(self@.sources.sources).dom() =~= self.sources.sources@.dom());
            lemma_listed_is_ranked(
                self.sources.sources.key_seq(),
                counts@,
                order@,
                source_requests(self@.sources.sources),
            );
        }
        order
    }

    fn most_requested_path(&self, source: &str) -> (r: Option<String>)
        requires
            self.wf(),
        ensures
            most_requested_reported(r, self@.pairs, source@),
    {
        if self.pairs.incomplete.contains(source) {
            return None;
        }
        let paths = match self.pairs.pairs.get(source) {
            Some(paths) => paths,
            None => {
                assert(self@.pairs.paths_of(source@).dom() =~= Set::<Seq<char>>::empty());
                return None;
            },
        };
        assert(self@.pairs.paths_of(source@) == paths@);
        let count = paths.len();
        if count == 0 {
            return None;
        }
        let mut best: usize = 0;
        let mut i: usize = 1;
        while i < count
            invariant
                paths.wf(),
                count == paths.key_seq().len(),
                0 <= best < i <= count,
                forall|j: int|
                    0 <= j < i && j != best ==> paths@[#[trigger] paths.key_seq()[j]]
                        < paths@[paths.key_seq()[best as int]] || (paths@[paths.key_seq()[j]]
                        == paths@[paths.key_seq()[best as int]] && best < j),
            decreases count - i,
        {
            if *paths.value_at(i) > *paths.value_at(best) {
                best = i;
            }
            i = i + 1;
        }
        let path = paths.key_at(best).clone();
        proof {
            paths.lemma_positions();
            assert forall|other: Seq<char>| #[trigger] paths@.dom().contains(other) && other != path@ implies paths@[other]
                < paths@[path@] || (paths@[other] == paths@[path@] && text_before(path@, other)) by {
                let j = paths.key_seq().index_of(other);
                assert(paths.key_seq()[j] == other);
            }
            assert(is_most_requested(paths@, path@));
        }
        Some(path)
    }

    fn rate_summaries(&self) -> (r: Vec<WindowedRequestRateSummary>)
        requires
            self.wf(),
        ensures
            rates_reported(
                r@,
                rate_parts(self@.clock.windows),
                self@.clock.without_timestamp,
            ),
    {
        let mut r: Vec<WindowedRequestRateSummary> = Vec::new();
        let windows = &self.clock.windows;
        let without = self.clock.without_timestamp;
        let mut i: usize = 0;
        while i < windows.len()
            invariant
                self.wf(),
                *windows == self.clock.windows,
                without == self.clock.without_timestamp,
                i <= windows@.len(),
                r@.len() == i,
                forall|j: int|
                    0 <= j < i ==> #[trigger] r@[j] == rate_summary(
                        windows@[j].width,
                        windows@[j].timeline@,
                        without,
                    ),
            decreases windows.len() - i,
        {
            assert(windows@[i as int].wf());
            r.push(windowed_rate_summary(windows[i].width, &windows[i].timeline, without));
            i = i + 1;
        }
        assert(r@ =~= rate_parts(self@.clock.windows).map_values(
            |w: RateWindowModel|
                rate_summary(w.width, w.timeline, self@.clock.without_timestamp as u64),
        ));
        r
    }

    fn focus_rate_summaries(&self) -> (r: Vec<WindowedRequestRateSummary>)
        requires
            self.wf(),
        ensures
            rates_reported(r@, self@.focused.windows, self@.focused.without_timestamp),
    {
        let mut r: Vec<WindowedRequestRateSummary> = Vec::new();
        let windows = &self.focused.windows;
        let without = self.focused.without_timestamp;
        let mut i: usize = 0;
        while i < windows.len()
            invariant
                self.wf(),
                *windows == self.focused.windows,
                without == self.focused.without_timestamp,
                i <= windows@.len(),
                r@.len() == i,
                forall|j: int|
                    0 <= j < i ==> #[trigger] r@[j] == rate_summary(
                        windows@[j].width,
                        windows@[j].timeline@,
                        without,
                    ),
            decreases windows.len() - i,
        {
            assert(windows@[i as int].wf());
            r.push(windowed_rate_summary(windows[i].width, &windows[i].timeline, without));
            i = i + 1;
        }
        assert(r@ =~= self@.focused.windows.map_values(
            |w: RateWindowModel|
                rate_summary(w.width, w.timeline, self@.focused.without_timestamp as u64),
        ));
        r
    }

    fn windowed_response_outcome_summaries(&self) -> (r: Option<
        Vec<WindowedResponseOutcomeSummary>,
    >)
        requires
            self.wf(),
        ensures
            outcome_windows_reported(r, self@),
    {
        if !self.status_available {
            return None;
        }
        let mut r: Vec<WindowedResponseOutcomeSummary> = Vec::new();
        let windows = &self.clock.windows;
        let without = self.clock.without_timestamp;
        let mut i: usize = 0;
        while i < windows.len()
            invariant
                self.wf(),
                *windows == self.clock.windows,
                without == self.clock.without_timestamp,
                i <= windows@.len(),
                r@.len() == i,
                forall|j: int|
                    0 <= j < i ==> crate::timeline::is_outcome_summary(
                        #[trigger] r@[j],
                        windows@[j]@,
                        self.response_bucket_minimum_requests,
                        self.response_success_share_threshold_percent,
                        without,
                    ),
            decreases windows.len() - i,
        {
            assert(windows@[i as int].wf() && windows@[i as int]@.within(
                self.tally.requests as nat,
            ));
            r.push(
                windows[i].response_outcome_summary(
                    self.response_bucket_minimum_requests,
                    self.response_success_share_threshold_percent,
                    without,
                ),
            );
            i = i + 1;
        }
        Some(r)
    }

    fn source_segment_summary(&self) -> (r: SourceSegmentDiversitySummary)
        requires
            self.wf(),
        ensures
            r == segment_summary(self@),
    {
        let map = &self.sources.sources;
        let ghost models = self@.sources.sources;
        let ghost keys = ordered_texts(models.dom());
        let ghost total = source_requests(models);
        proof {
            map.lemma_positions();
            map.lemma_order();
            assert(models.dom() =~= map@.dom());
            assert(total.dom() =~= map@.dom());
            assert forall|j: int| 0 <= j < keys.len() implies total.dom().contains(#[trigger] keys[j]) by {
                assert(map@.dom().contains(map.key_seq()[j]));
            }
            lemma_list_sum_bounded(keys, total);
        }
        let count = map.len();
        let mut missed: Vec<u64> = Vec::new();
        let mut above: Vec<u64> = Vec::new();
        let mut sources_beyond: usize = 0;
        let mut sources_missed_beyond: usize = 0;
        let mut beyond: u64 = 0;
        let mut missed_beyond: u64 = 0;
        let mut without_path: u64 = 0;
        let mut i: usize = 0;
        while i < count
            invariant
                self.wf(),
                *map == self.sources.sources,
                map.wf(),
                models == self@.sources.sources,
                keys == ordered_texts(models.dom()),
                total == source_requests(models),
                map.key_seq() == keys,
                count == keys.len(),
                i <= count,
                list_sum(keys, total) <= u64::MAX,
                forall|j: int| 0 <= j < keys.len() ==> map@.dom().contains(#[trigger] keys[j]),
                missed@ == missed_segments(keys.take(i as int), models),
                above@ == positive(missed@),
                sources_beyond == count_positive(keys.take(i as int), beyond_by_source(models)),
                sources_beyond <= i,
                sources_missed_beyond == count_positive(
                    keys.take(i as int),
                    missed_beyond_by_source(models),
                ),
                sources_missed_beyond <= i,
                beyond == list_sum(keys.take(i as int), beyond_by_source(models)),
                missed_beyond == list_sum(keys.take(i as int), missed_beyond_by_source(models)),
                without_path == list_sum(keys.take(i as int), without_path_by_source(models)),
            decreases count - i,
        {
            let item = map.value_at(i);
            let ghost k = keys[i as int];
            proof {
                assert(map@.dom().contains(k));
                assert(models[k] == item@);
                assert(item.wf());
                assert(keys.take(i + 1).drop_last() =~= keys.take(i as int));
                assert(keys.take(i + 1).last() == k);
                assert forall|j: int| 0 <= j < keys.take(i + 1).len() implies beyond_by_source(
                    models,
                )[#[trigger] keys.take(i + 1)[j]] <= total[keys.take(i + 1)[j]]
                    && missed_beyond_by_source(models)[keys.take(i + 1)[j]] <= total[keys.take(
                    i + 1,
                )[j]] && without_path_by_source(models)[keys.take(i + 1)[j]] <= total[keys.take(
                    i + 1,
                )[j]] by {
                    let key = keys[j];
                    assert(map@.dom().contains(key));
                    assert(map@[key].wf());
                }
                lemma_list_sum_monotone(keys.take(i + 1), beyond_by_source(models), total);
                lemma_list_sum_monotone(keys.take(i + 1), missed_beyond_by_source(models), total);
                lemma_list_sum_monotone(keys.take(i + 1), without_path_by_source(models), total);
                lemma_list_sum_grows(keys, total, i + 1);
            }
            let length = item.segments_404.len() as u64;
            let ghost before = missed@;
            missed.push(length);
            proof {
                assert(missed@ =~= missed_segments(keys.take(i + 1), models));
                assert(missed@.drop_last() =~= before);
            }
            if length > 0 {
                above.push(length);
            }
            if item.segments_beyond_cap > 0 {
                sources_beyond = sources_beyond + 1;
            }
            if item.segments_404_beyond_cap > 0 {
                sources_missed_beyond = sources_missed_beyond + 1;
            }
            beyond = beyond + item.segments_beyond_cap;
            missed_beyond = missed_beyond + item.segments_404_beyond_cap;
            without_path = without_path + item.paths_unavailable;
            i = i + 1;
        }
        assert(keys.take(i as int) =~= keys);
        let (median, maximum) = median_and_peak(&missed);
        let (median_above, _) = median_and_peak(&above);
        let available = self.status_available;
        SourceSegmentDiversitySummary {
            maximum_404_segments: if available {
                maximum
            } else {
                None
            },
            median_404_segments: if available {
                median
            } else {
                None
            },
            sources_with_404_segments: if available {
                Some(above.len())
            } else {
                None
            },
            median_404_segments_among_sources_with_404_segments: if available {
                median_above
            } else {
                None
            },
            sources_beyond_cap: sources_beyond,
            sources_404_beyond_cap: if available {
                Some(sources_missed_beyond)
            } else {
                None
            },
            observations_beyond_cap: beyond,
            observations_404_beyond_cap: if available {
                Some(missed_beyond)
            } else {
                None
            },
            observations_without_path: without_path,
            retained_sources: count,
            maximum_segments_per_source: self.limits.max_source_segments,
        }
    }

    fn sanitized_focus_summary(&self) -> (r: Option<SanitizedFocusSummary>)
        requires
            self.wf(),
        ensures
            sanitized_focus_reported(r, self@),
    {
        let selector = match &self.focus {
            Some(selector) => selector,
            None => {
                return None;
            },
        };
        let focused = &self.focused;
        proof {
            assert(self@.focused.sources.dom() =~= focused.sources@.dom());
            assert(self@.focused.paths.dom() =~= focused.paths@.dom());
        }
        let rate = focused.minutes.request_rate();
        let sources = focused.sources.len();
        Some(
            SanitizedFocusSummary {
                focus_kind: selector.kind().to_owned(),
                total_requests: focused.tally.requests,
                distinct_source_ips: sources,
                requests_per_source_ip: Ratio {
                    numerator: focused.tally.requests,
                    denominator: sources as u64,
                },
                source_ips_beyond_cap: focused.sources_beyond,
                distinct_uri_paths: focused.paths.len(),
                paths_beyond_cap: focused.paths_beyond,
                peak_requests_per_minute: rate.peak,
                median_requests_per_minute: rate.median,
                request_rates: self.focus_rate_summaries(),
                requests_with_query: focused.query.requests_with_query,
                distinct_query_strings: focused.query.strings.len(),
                query_strings_beyond_tracking_cap: focused.query.strings_beyond,
                distinct_query_keys: focused.query.keys.len(),
                query_keys_beyond_tracking_cap: focused.query.keys_beyond,
            },
        )
    }

    /// The aggregates, without any path, address or other raw value.
    pub fn summary(&self) -> (r: RequestConcentrationSummary)
        requires
            self.wf(),
        ensures
            is_summary(r, self@),
    {
        proof {
            self.paths.paths.lemma_positions();
            self.sources.sources.lemma_positions();
            assert(self@.paths.paths.dom() =~= self.paths.paths@.dom());
            assert(self@.sources.sources.dom() =~= self.sources.sources@.dom());
            assert(path_requests(self@.paths.paths).dom() =~= self.paths.paths@.dom());
            assert(source_requests(self@.sources.sources).dom() =~= self.sources.sources@.dom());
        }
        let path_counts = self.path_counts();
        let path_order = self.sorted_paths(&path_counts);
        let source_counts = self.source_counts();
        let source_order = self.sorted_sources(&source_counts);
        let top_path = if path_order.len() > 0 {
            assert(path_order@[0] < self.paths.paths.key_seq().len());
            let item = self.paths.paths.value_at(path_order[0]);
            let ghost key = self.paths.paths.key_seq()[path_order@[0] as int];
            proof {
                assert(self.paths.paths@.dom().contains(key));
                assert(self@.paths.paths[key] == item@);
            }
            let summary = self.path_summary(item);
            proof {
                let list = listed(self.paths.paths.key_seq(), path_order@);
                assert forall|other: Seq<Seq<char>>| #[trigger]
                    ranked(other, path_requests(self@.paths.paths)) implies is_path_summary(
                    summary,
                    self@.paths.paths[other[0]],
                    self@,
                ) by {
                    ranking_is_unique(list, other, path_requests(self@.paths.paths));
                    assert(list[0] == key);
                }
            }
            Some(summary)
        } else {
            None
        };
        assert(top_path_reported(top_path, self@));
        let top_paths = top_ten(
            &path_counts,
            &path_order,
            Ghost(self.paths.paths.key_seq()),
            Ghost(path_requests(self@.paths.paths)),
        );
        let top_sources = top_ten(
            &source_counts,
            &source_order,
            Ghost(self.sources.sources.key_seq()),
            Ghost(source_requests(self@.sources.sources)),
        );
        let minutes = self.clock.minutes.timeline.request_rate();
        RequestConcentrationSummary {
            source_segment_diversity: Some(self.source_segment_summary()),
            total_requests: self.tally.requests,
            distinct_uri_paths: self.paths.paths.len(),
            distinct_source_ips: self.sources.sources.len(),
            requests_without_uri_path: self.paths.missing,
            requests_without_source_ip: self.sources.missing,
            paths_beyond_tracking_cap: self.paths.beyond,
            source_ips_beyond_tracking_cap: self.sources.beyond,
            source_path_pairs_beyond_tracking_cap: self.pairs.beyond,
            top_path,
            top_ten_paths_request_share: self.share(top_paths),
            top_ten_source_ips_request_share: self.share(top_sources),
            requests_per_minute: RequestRateSummary {
                peak_requests_per_minute: minutes.peak,
                median_requests_per_minute: minutes.median,
                peak_to_median_ratio: minutes.ratio,
                observations_without_timestamp: self.clock.without_timestamp,
            },
            request_rates: self.rate_summaries(),
            response_outcomes: if self.status_available {
                Some(response_outcome_summary(&self.tally.classes))
            } else {
                None
            },
            response_outcome_windows: self.windowed_response_outcome_summaries(),
            response_status_codes: codes_when(self.status_available, &self.tally.codes),
            focus: self.sanitized_focus_summary(),
        }
    }

    fn private_paths(&self, with_keys: bool) -> (r: Vec<PrivatePathConcentration>)
        requires
            self.wf(),
        ensures
            paths_reported(r@, self@, with_keys),
    {
        let counts = self.path_counts();
        let order = self.sorted_paths(&counts);
        let map = &self.paths.paths;
        let ghost list = listed(map.key_seq(), order@);
        let mut r: Vec<PrivatePathConcentration> = Vec::new();
        let mut i: usize = 0;
        while i < order.len()
            invariant
                self.wf(),
                *map == self.paths.paths,
                list == listed(map.key_seq(), order@),
                order@.len() == map.key_seq().len(),
                forall|j: int| 0 <= j < order@.len() ==> (#[trigger] order@[j]) < map.key_seq().len(),
                i <= order@.len(),
                r@.len() == i,
                forall|j: int|
                    0 <= j < i ==> (#[trigger] r@[j]).uri_path@ == list[j] && is_path_summary(
                        r@[j].summary,
                        self@.paths.paths[list[j]],
                        self@,
                    ) && texts(r@[j].query_keys@) == reported_keys(
                        self@.paths.paths[list[j]].query,
                        with_keys,
                    ),
            decreases order.len() - i,
        {
            let at = order[i];
            assert(order@[i as int] < map.key_seq().len());
            let item = map.value_at(at);
            let key = map.key_at(at);
            proof {
                assert(self@.paths.paths[key@] == item@);
                assert(list[i as int] == key@);
            }
            r.push(
                PrivatePathConcentration {
                    uri_path: key.clone(),
                    summary: self.path_summary(item),
                    query_keys: keys_when(with_keys, &item.query),
                },
            );
            i = i + 1;
        }
        assert(path_names(r@) =~= list);
        r
    }

    fn private_sources(&self) -> (r: Vec<PrivateSourceConcentration>)
        requires
            self.wf(),
        ensures
            sources_reported(r@, self@),
    {
        let counts = self.source_counts();
        let order = self.sorted_sources(&counts);
        let map = &self.sources.sources;
        let ghost list = listed(map.key_seq(), order@);
        let mut r: Vec<PrivateSourceConcentration> = Vec::new();
        let mut i: usize = 0;
        while i < order.len()
            invariant
                self.wf(),
                *map == self.sources.sources,
                list == listed(map.key_seq(), order@),
                order@.len() == map.key_seq().len(),
                forall|j: int| 0 <= j < order@.len() ==> (#[trigger] order@[j]) < map.key_seq().len(),
                i <= order@.len(),
                r@.len() == i,
                forall|j: int|
                    0 <= j < i ==> (#[trigger] r@[j]).source_ip@ == list[j] && is_source_report(
                        r@[j],
                        self@.sources.sources[list[j]],
                        self@,
                    ),
            decreases order.len() - i,
        {
            let at = order[i];
            assert(order@[i as int] < map.key_seq().len());
            let item = map.value_at(at);
            let key = map.key_at(at);
            proof {
                assert(self@.sources.sources[key@] == item@);
                assert(list[i as int] == key@);
            }
            r.push(
                PrivateSourceConcentration {
                    path_segment_diversity: Some(
                        self.segment_summary(item),
                    ),
                    source_ip: key.clone(),
                    requests: item.tally.requests,
                    most_requested_uri_path: self.most_requested_path(key.as_str()),
                    response_status_classes: item.tally.classes,
                    response_status_codes: codes_when(self.status_available, &item.tally.codes),
                    response_outcomes: if self.status_available {
                        Some(response_outcome_summary(&item.tally.classes))
                    } else {
                        None
                    },
                },
            );
            i = i + 1;
        }
        assert(source_names(r@) =~= list);
        r
    }

    fn segment_summary(&self, item: &SourceAccumulator) -> (r: SourceSegmentDiversity)
        requires
            item.wf(),
        ensures
            r == segment_diversity(item@, self@.status_available, self@.limits.max_source_segments),
    {
        SourceSegmentDiversity {
            distinct_segments: item.segments.len(),
            distinct_404_segments: if self.status_available {
                Some(item.segments_404.len())
            } else {
                None
            },
            observations_beyond_cap: item.segments_beyond_cap,
            observations_404_beyond_cap: if self.status_available {
                Some(item.segments_404_beyond_cap)
            } else {
                None
            },
            observations_without_path: item.paths_unavailable,
            maximum_segments: self.limits.max_source_segments,
        }
    }

    fn private_focus_sources(&self) -> (r: Vec<PrivateFocusSource>)
        requires
            self.wf(),
        ensures
            focus_sources_reported(r@, self@.focused.sources, self@.status_available),
    {
        let map = &self.focused.sources;
        let order = ranked_tallies(map);
        let ghost list = listed(map.key_seq(), order@);
        let mut r: Vec<PrivateFocusSource> = Vec::new();
        let mut i: usize = 0;
        while i < order.len()
            invariant
                self.wf(),
                *map == self.focused.sources,
                list == listed(map.key_seq(), order@),
                order@.len() == map.key_seq().len(),
                forall|j: int| 0 <= j < order@.len() ==> (#[trigger] order@[j]) < map.key_seq().len(),
                i <= order@.len(),
                r@.len() == i,
                forall|j: int|
                    0 <= j < i ==> {
                        let t = self@.focused.sources[list[j]];
                        &&& (#[trigger] r@[j]).source_ip@ == list[j]
                        &&& r@[j].requests == t.requests
                        &&& r@[j].response_status_classes == t.classes
                        &&& codes_reported(
                            r@[j].response_status_codes,
                            self@.status_available,
                            t.codes,
                        )
                        &&& r@[j].response_outcomes == given(
                            self@.status_available,
                            crate::status::outcome_summary(t.classes),
                        )
                    },
            decreases order.len() - i,
        {
            let at = order[i];
            assert(order@[i as int] < map.key_seq().len());
            let item = map.value_at(at);
            let key = map.key_at(at);
            proof {
                assert(self@.focused.sources[key@] == item@);
                assert(list[i as int] == key@);
            }
            r.push(
                PrivateFocusSource {
                    source_ip: key.clone(),
                    requests: item.requests,
                    response_status_classes: item.classes,
                    response_status_codes: codes_when(self.status_available, &item.codes),
                    response_outcomes: if self.status_available {
                        Some(response_outcome_summary(&item.classes))
                    } else {
                        None
                    },
                },
            );
            i = i + 1;
        }
        assert(focus_source_names(r@) =~= list);
        r
    }

    fn private_focus_paths(&self) -> (r: Vec<PrivateFocusPath>)
        requires
            self.wf(),
        ensures
            focus_paths_reported(r@, self@.focused.paths, self@.status_available),
    {
        let map = &self.focused.paths;
        let order = ranked_tallies(map);
        let ghost list = listed(map.key_seq(), order@);
        let mut r: Vec<PrivateFocusPath> = Vec::new();
        let mut i: usize = 0;
        while i < order.len()
            invariant
                self.wf(),
                *map == self.focused.paths,
                list == listed(map.key_seq(), order@),
                order@.len() == map.key_seq().len(),
                forall|j: int| 0 <= j < order@.len() ==> (#[trigger] order@[j]) < map.key_seq().len(),
                i <= order@.len(),
                r@.len() == i,
                forall|j: int|
                    0 <= j < i ==> {
                        let t = self@.focused.paths[list[j]];
                        &&& (#[trigger] r@[j]).uri_path@ == list[j]
                        &&& r@[j].requests == t.requests
                        &&& r@[j].response_status_classes == t.classes
                        &&& codes_reported(
                            r@[j].response_status_codes,
                            self@.status_available,
                            t.codes,
                        )
                    },
            decreases order.len() - i,
        {
            let at = order[i];
            assert(order@[i as int] < map.key_seq().len());
            let item = map.value_at(at);
            let key = map.key_at(at);
            proof {
                assert(self@.focused.paths[key@] == item@);
                assert(list[i as int] == key@);
            }
            r.push(
                PrivateFocusPath {
                    uri_path: key.clone(),
                    requests: item.requests,
                    response_status_classes: item.classes,
                    response_status_codes: codes_when(self.status_available, &item.codes),
                },
            );
            i = i + 1;
        }
        assert(focus_path_names(r@) =~= list);
        r
    }

    fn private_focus_summary(&self, with_keys: bool) -> (r: Option<PrivateFocusSummary>)
        requires
            self.wf(),
        ensures
            private_focus_reported(r, self@, with_keys),
    {
        let selector = match &self.focus {
            Some(selector) => selector,
            None => {
                return None;
            },
        };
        let focused = &self.focused;
        proof {
            assert(self@.focused.sources.dom() =~= focused.sources@.dom());
            assert(self@.focused.paths.dom() =~= focused.paths@.dom());
        }
        let rate = focused.minutes.request_rate();
        let sources = focused.sources.len();
        Some(
            PrivateFocusSummary {
                response_status_codes: codes_when(self.status_available, &focused.tally.codes),
                focus_kind: selector.kind().to_owned(),
                selector: selector.selector_display(),
                uri_path: selector.selector_display(),
                total_requests: focused.tally.requests,
                distinct_source_ips: sources,
                requests_per_source_ip: Ratio {
                    numerator: focused.tally.requests,
                    denominator: sources as u64,
                },
                source_ips_beyond_cap: focused.sources_beyond,
                paths: self.private_focus_paths(),
                paths_beyond_cap: focused.paths_beyond,
                peak_requests_per_minute: rate.peak,
                median_requests_per_minute: rate.median,
                response_status_classes: focused.tally.classes,
                sources: self.private_focus_sources(),
                network_prefix_groups: Vec::new(),
                asn: None,
                requests_per_minute_series: focused.minutes.minute_series(),
                minute_buckets_beyond_cap: focused.minutes.beyond_cap,
                requests_with_query: focused.query.requests_with_query,
                distinct_query_strings: focused.query.strings.len(),
                query_strings_beyond_tracking_cap: focused.query.strings_beyond,
                distinct_query_keys: focused.query.keys.len(),
                query_keys_beyond_tracking_cap: focused.query.keys_beyond,
                query_keys: keys_when(with_keys, &focused.query),
            },
        )
    }

    /// The private report, without the names of query keys.
    pub fn private_report(&self) -> (r: PrivateRequestConcentrationReport)
        requires
            self.wf(),
        ensures
            is_private_report(r, self@, false),
            adds_up(r),
    {
        self.private_report_with_query_keys(false)
    }

    /// The private report, with the names of query keys where asked for. Query strings and
    /// values are never reported.
    pub fn private_report_with_query_keys(&self, include_query_keys: bool) -> (r:
        PrivateRequestConcentrationReport)
        requires
            self.wf(),
        ensures
            is_private_report(r, self@, include_query_keys),
            adds_up(r),
    {
        let r = PrivateRequestConcentrationReport {
            report_kind: "REQUEST_CONCENTRATION_PRIVATE".to_owned(),
            safety_note:
                "Private analyst artifact: URI paths and observed connection-peer IPs are included. Request-volume distribution is not a determination of a denial-of-service attempt, attack, abuse, compromise, or attacker identity.".to_owned(),
            summary: self.summary(),
            paths: self.private_paths(include_query_keys),
            source_ips: self.private_sources(),
            focus: self.private_focus_summary(include_query_keys),
            requests_per_minute_series: self.clock.minutes.timeline.minute_series(),
            status_class_requests_per_minute_series: self.clock.minutes.status_series(),
            minute_buckets_beyond_cap: self.clock.minutes.timeline.beyond_cap,
        };
        proof {
            self.paths.paths.lemma_positions();
            self.sources.sources.lemma_positions();
            assert(self@.paths.paths.dom() =~= self.paths.paths@.dom());
            assert(self@.sources.sources.dom() =~= self.sources.sources@.dom());
            reports_add_up(r, self@, include_query_keys);
        }
        r
    }
}

impl RequestConcentration {
    /// Every request is counted in exactly one status class, and for paths and for sources alike
    /// it is kept with its key, counted as beyond the bound, or had none.
    pub proof fn every_request_is_accounted_for(&self)
        requires
            self.wf(),
        ensures
            self@.tally.classes.total() == self@.tally.requests,
            self@.paths.accounts_for(self@.tally.requests),
            self@.sources.accounts_for(self@.tally.requests),
            self@.tally.codes.weight() <= self@.tally.requests,
    {
    }

    /// The outcomes of a time bucket are those of the requests counted in it.
    pub proof fn outcomes_match_the_buckets(&self, i: int)
        requires
            self.wf(),
            0 <= i < self@.clock.windows.len(),
        ensures
            self@.clock.minutes.consistent(),
            self@.clock.windows[i].consistent(),
    {
        assert(self.clock.windows@[i].wf());
    }
}

impl ConcentrationModel {
    /// Nothing is kept beyond the limits.
    pub open spec fn bounded(self) -> bool {
        &&& self.paths.paths.dom().finite()
        &&& self.paths.paths.dom().len() <= self.limits.max_paths
        &&& self.sources.sources.dom().finite()
        &&& self.sources.sources.dom().len() <= self.limits.max_source_ips
        &&& self.pairs.count <= self.limits.max_source_path_pairs
        &&& self.clock.minutes.timeline.buckets.dom().finite()
        &&& self.clock.minutes.timeline.buckets.dom().len() <= self.limits.max_minute_buckets
        &&& forall|i: int|
            0 <= i < self.clock.windows.len() ==> {
                &&& (#[trigger] self.clock.windows[i]).timeline.buckets.dom().finite()
                &&& self.clock.windows[i].timeline.buckets.dom().len()
                    <= self.limits.max_minute_buckets
            }
        &&& self.focused.sources.dom().finite()
        &&& self.focused.sources.dom().len() <= self.limits.max_focus_source_ips
        &&& self.focused.paths.dom().finite()
        &&& self.focused.paths.dom().len() <= self.limits.max_focus_paths
        &&& self.focused.minutes.buckets.dom().finite()
        &&& self.focused.minutes.buckets.dom().len() <= self.limits.max_minute_buckets
    }
}

/// The limits hold from the start, and every observation keeps them.
pub proof fn limits_always_hold(m: ConcentrationModel, o: Observation)
    requires
        m.bounded(),
    ensures
        m.observed(o).bounded(),
        m.observed(o).limits == m.limits,
{
    let after = m.observed(o);
    assert forall|i: int| 0 <= i < after.clock.windows.len() implies (#[trigger] after.clock.windows[i]).timeline.buckets.dom().finite()
        && after.clock.windows[i].timeline.buckets.dom().len() <= m.limits.max_minute_buckets by {
        let w = m.clock.windows[i];
        assert(w.timeline.buckets.dom().len() <= m.limits.max_minute_buckets);
    }
}

/// The same after any list of observations.
pub proof fn limits_hold_after_all(m: ConcentrationModel, list: Seq<Observation>)
    requires
        m.bounded(),
    ensures
        m.observed_all(list).bounded(),
        m.observed_all(list).limits == m.limits,
    decreases list.len(),
{
    if list.len() > 0 {
        limits_hold_after_all(m, list.drop_last());
        limits_always_hold(m.observed_all(list.drop_last()), list.last());
    }
}

/// A fresh accumulator keeps nothing.
pub proof fn limits_hold_at_the_start(
    response_bytes_available: bool,
    status_available: bool,
    limits: ConcentrationLimits,
    widths: Seq<u64>,
)
    ensures
        ConcentrationModel::none(response_bytes_available, status_available, limits, widths).bounded(),
{
    let m = ConcentrationModel::none(response_bytes_available, status_available, limits, widths);
    assert forall|i: int| 0 <= i < m.clock.windows.len() implies (#[trigger] m.clock.windows[i]).timeline.buckets.dom().finite()
        && m.clock.windows[i].timeline.buckets.dom().len() <= limits.max_minute_buckets by {
        assert(m.clock.windows[i].timeline.buckets =~= Map::<i64, u64>::empty());
    }
}

/// A request that the focus does not select leaves the focus as it was; one that it selects
/// counts there once. The focus never changes what is measured of all requests.
pub proof fn focus_counts_selected_requests_only(m: ConcentrationModel, o: Observation)
    ensures
        !m.selected(o) ==> m.observed(o).focused == m.focused,
        m.selected(o) ==> m.observed(o).focused.tally.requests == m.focused.tally.requests + 1,
        m.observed(o).tally == (ConcentrationModel { focus: None, ..m }).observed(o).tally,
        m.observed(o).paths == (ConcentrationModel { focus: None, ..m }).observed(o).paths,
        m.observed(o).sources == (ConcentrationModel { focus: None, ..m }).observed(o).sources,
        m.observed(o).pairs == (ConcentrationModel { focus: None, ..m }).observed(o).pairs,
        m.observed(o).clock == (ConcentrationModel { focus: None, ..m }).observed(o).clock,
{
}

/// How many requests of a list are for a path.
pub open spec fn requests_for(list: Seq<Observation>, path: Seq<char>) -> nat
    decreases list.len(),
{
    if list.len() == 0 {
        0
    } else {
        requests_for(list.drop_last(), path) + if list.last().path == Some(path) {
            1nat
        } else {
            0nat
        }
    }
}

/// How many requests of a list are from a source.
pub open spec fn requests_from(list: Seq<Observation>, source: Seq<char>) -> nat
    decreases list.len(),
{
    if list.len() == 0 {
        0
    } else {
        requests_from(list.drop_last(), source) + if list.last().source == Some(source) {
            1nat
        } else {
            0nat
        }
    }
}

/// Whether a source requested a path in a list.
pub open spec fn requested(list: Seq<Observation>, source: Seq<char>, path: Seq<char>) -> bool {
    exists|i: int|
        0 <= i < list.len() && (#[trigger] list[i]).source == Some(source) && list[i].path == Some(
            path,
        )
}

/// The count of a path that is kept is exact: every request for it is in it. A path that was
/// requested is missing only where the bound on paths is reached, and then its requests are
/// counted as beyond it.
pub proof fn kept_paths_are_exact(m: ConcentrationModel, list: Seq<Observation>, path: Seq<char>)
    requires
        m.paths == PathBookModel::none(),
    ensures
        ({
            let after = m.observed_all(list);
            let kept = after.paths.paths.dom().contains(path);
            &&& after.limits == m.limits
            &&& after.paths.paths.dom().finite()
            &&& kept ==> after.paths.paths[path].tally.requests == requests_for(list, path)
            &&& kept ==> requests_for(list, path) > 0
            &&& !kept ==> requests_for(list, path) <= after.paths.beyond
            &&& !kept && requests_for(list, path) > 0 ==> after.paths.paths.dom().len()
                >= m.limits.max_paths
        }),
    decreases list.len(),
{
    if list.len() > 0 {
        kept_paths_are_exact(m, list.drop_last(), path);
    }
}

/// The count of a source that is kept is exact: every request from it is in it. A source that
/// was seen is missing only where the bound on sources is reached, and then its requests are
/// counted as beyond it.
pub proof fn kept_sources_are_exact(
    m: ConcentrationModel,
    list: Seq<Observation>,
    source: Seq<char>,
)
    requires
        m.sources == SourceBookModel::none(),
    ensures
        ({
            let after = m.observed_all(list);
            let kept = after.sources.sources.dom().contains(source);
            &&& after.limits == m.limits
            &&& after.sources.sources.dom().finite()
            &&& kept ==> after.sources.sources[source].tally.requests == requests_from(
                list,
                source,
            )
            &&& kept ==> requests_from(list, source) > 0
            &&& !kept ==> requests_from(list, source) <= after.sources.beyond
            &&& !kept && requests_from(list, source) > 0 ==> after.sources.sources.dom().len()
                >= m.limits.max_source_ips
        }),
    decreases list.len(),
{
    if list.len() > 0 {
        kept_sources_are_exact(m, list.drop_last(), source);
    }
}

proof fn lemma_never_requested(list: Seq<Observation>, source: Seq<char>, path: Seq<char>)
    requires
        requests_for(list, path) == 0,
    ensures
        !requested(list, source, path),
    decreases list.len(),
{
    if list.len() > 0 {
        let before = list.drop_last();
        lemma_never_requested(before, source, path);
        assert forall|i: int| 0 <= i < list.len() && list[i].path == Some(path) implies (
        #[trigger] list[i]).source != Some(source) by {
            if i < before.len() {
                assert(before[i] == list[i]);
            }
        }
    }
}

/// While no source went beyond the bound, the sources of a kept path are exactly those that
/// requested it.
pub proof fn path_sources_are_exact(
    m: ConcentrationModel,
    list: Seq<Observation>,
    path: Seq<char>,
    source: Seq<char>,
)
    requires
        m.paths == PathBookModel::none(),
        m.sources == SourceBookModel::none(),
        m.observed_all(list).sources.beyond == 0,
        m.observed_all(list).paths.paths.dom().contains(path),
    ensures
        m.observed_all(list).paths.paths[path].sources.contains(source) == requested(
            list,
            source,
            path,
        ),
    decreases list.len(),
{
    if list.len() > 0 {
        let before = list.drop_last();
        let last = list.last();
        kept_paths_are_exact(m, list, path);
        kept_paths_are_exact(m, before, path);
        kept_sources_are_exact(m, before, source);
        if m.observed_all(before).paths.paths.dom().contains(path) {
            path_sources_are_exact(m, before, path, source);
        } else {
            lemma_never_requested(before, source, path);
        }
        assert(requested(list, source, path) == (requested(before, source, path) || (last.source
            == Some(source) && last.path == Some(path)))) by {
            if requested(before, source, path) {
                let i = choose|i: int|
                    0 <= i < before.len() && (#[trigger] before[i]).source == Some(source)
                        && before[i].path == Some(path);
                assert(list[i] == before[i]);
            }
            if requested(list, source, path) {
                let i = choose|i: int|
                    0 <= i < list.len() && (#[trigger] list[i]).source == Some(source)
                        && list[i].path == Some(path);
                if i < before.len() {
                    assert(before[i] == list[i]);
                }
            }
            if last.source == Some(source) && last.path == Some(path) {
                assert(list[list.len() - 1] == last);
            }
        }
    }
}

/// How many requests of a list are from a source for a path.
pub open spec fn requests_of(list: Seq<Observation>, source: Seq<char>, path: Seq<char>) -> nat
    decreases list.len(),
{
    if list.len() == 0 {
        0
    } else {
        requests_of(list.drop_last(), source, path) + if list.last().source == Some(source)
            && list.last().path == Some(path) {
            1nat
        } else {
            0nat
        }
    }
}

proof fn lemma_pairs_are_few(list: Seq<Observation>, source: Seq<char>, path: Seq<char>)
    ensures
        requests_of(list, source, path) <= requests_for(list, path),
        requests_of(list, source, path) <= requests_from(list, source),
        requests_of(list, source, path) <= list.len(),
    decreases list.len(),
{
    if list.len() > 0 {
        lemma_pairs_are_few(list.drop_last(), source, path);
    }
}

/// The count of a pair of source and path that is kept is exact. A pair that was requested is
/// missing only where its path or its source is not kept, or where the source is marked as one
/// whose pairs are incomplete.
pub proof fn kept_pairs_are_exact(
    m: ConcentrationModel,
    list: Seq<Observation>,
    source: Seq<char>,
    path: Seq<char>,
)
    requires
        m.paths == PathBookModel::none(),
        m.sources == SourceBookModel::none(),
        m.pairs == PairBookModel::none(),
        list.len() <= u64::MAX,
    ensures
        ({
            let after = m.observed_all(list);
            let counts = after.pairs.paths_of(source);
            let both = after.paths.paths.dom().contains(path)
                && after.sources.sources.dom().contains(source);
            &&& counts.dom().contains(path) ==> both && counts[path] == requests_of(
                list,
                source,
                path,
            ) && counts[path] > 0
            &&& !counts.dom().contains(path) && both && requests_of(list, source, path) > 0
                ==> after.pairs.incomplete.contains(source) && after.pairs.count
                >= m.limits.max_source_path_pairs
        }),
    decreases list.len(),
{
    if list.len() > 0 {
        let before = list.drop_last();
        kept_pairs_are_exact(m, before, source, path);
        kept_paths_are_exact(m, before, path);
        kept_paths_are_exact(m, list, path);
        kept_sources_are_exact(m, before, source);
        kept_sources_are_exact(m, list, source);
        lemma_pairs_are_few(before, source, path);
    }
}

/// How many dated requests of a list lie in a time bucket.
pub open spec fn requests_at(list: Seq<Observation>, bucket: i64, width: u64) -> nat
    decreases list.len(),
{
    if list.len() == 0 {
        0
    } else {
        requests_at(list.drop_last(), bucket, width) + match list.last().time {
            Some(t) => if bucket_of(t.seconds, width) == bucket {
                1nat
            } else {
                0nat
            },
            None => 0nat,
        }
    }
}

/// The count of a minute that is kept is exact. A minute with requests is missing only where the
/// bound on minutes is reached, and then its requests are counted as beyond it.
pub proof fn kept_minutes_are_exact(m: ConcentrationModel, list: Seq<Observation>, minute: i64)
    requires
        m.clock.minutes == OutcomeWindowModel::none(60),
        list.len() <= u64::MAX,
    ensures
        ({
            let after = m.observed_all(list).clock.minutes;
            let kept = after.timeline.buckets.dom().contains(minute);
            &&& m.observed_all(list).limits == m.limits
            &&& after.width == 60
            &&& after.timeline.buckets.dom().finite()
            &&& requests_at(list, minute, 60) <= list.len()
            &&& kept ==> after.timeline.buckets[minute] == requests_at(list, minute, 60)
            &&& kept ==> requests_at(list, minute, 60) > 0
            &&& !kept ==> requests_at(list, minute, 60) <= after.timeline.beyond_cap
            &&& !kept && requests_at(list, minute, 60) > 0 ==> after.timeline.buckets.dom().len()
                >= m.limits.max_minute_buckets
        }),
    decreases list.len(),
{
    if list.len() > 0 {
        kept_minutes_are_exact(m, list.drop_last(), minute);
    }
}

/// How many requests of a list the focus selects from a source.
pub open spec fn selected_from(
    m: ConcentrationModel,
    list: Seq<Observation>,
    source: Seq<char>,
) -> nat
    decreases list.len(),
{
    if list.len() == 0 {
        0
    } else {
        selected_from(m, list.drop_last(), source) + if m.selected(list.last())
            && list.last().source == Some(source) {
            1nat
        } else {
            0nat
        }
    }
}

/// How many requests of a list the focus selects for a path.
pub open spec fn selected_for(m: ConcentrationModel, list: Seq<Observation>, path: Seq<char>) -> nat
    decreases list.len(),
{
    if list.len() == 0 {
        0
    } else {
        selected_for(m, list.drop_last(), path) + if m.selected(list.last())
            && list.last().path == Some(path) {
            1nat
        } else {
            0nat
        }
    }
}

/// Inside the focus the count of a source that is kept is exact too. A source that was selected
/// is missing only where the bound of the focus on sources is reached.
pub proof fn focus_sources_are_exact(
    m: ConcentrationModel,
    list: Seq<Observation>,
    source: Seq<char>,
)
    requires
        m.focused.sources == Map::<Seq<char>, TallyModel>::empty(),
        m.focused.sources_beyond == 0,
    ensures
        ({
            let after = m.observed_all(list);
            let kept = after.focused.sources.dom().contains(source);
            let count = selected_from(m, list, source);
            &&& after.limits == m.limits
            &&& after.focus == m.focus
            &&& after.focused.sources.dom().finite()
            &&& kept ==> after.focused.sources[source].requests == count && count > 0
            &&& !kept ==> count <= after.focused.sources_beyond
            &&& !kept && count > 0 ==> after.focused.sources.dom().len()
                >= m.limits.max_focus_source_ips
        }),
    decreases list.len(),
{
    if list.len() > 0 {
        focus_sources_are_exact(m, list.drop_last(), source);
    }
}

/// The same of the paths inside a focus that is not on one exact path, which keeps none.
pub proof fn focus_paths_are_exact(m: ConcentrationModel, list: Seq<Observation>, path: Seq<char>)
    requires
        m.focused.paths == Map::<Seq<char>, TallyModel>::empty(),
        m.focused.paths_beyond == 0,
    ensures
        ({
            let after = m.observed_all(list);
            let kept = after.focused.paths.dom().contains(path);
            let count = if m.focus matches Some(SelectorModel::ExactPath(_)) {
                0
            } else {
                selected_for(m, list, path)
            };
            &&& after.limits == m.limits
            &&& after.focus == m.focus
            &&& after.focused.paths.dom().finite()
            &&& kept ==> after.focused.paths[path].requests == count && count > 0
            &&& !kept ==> count <= after.focused.paths_beyond
            &&& !kept && count > 0 ==> after.focused.paths.dom().len() >= m.limits.max_focus_paths
        }),
    decreases list.len(),
{
    if list.len() > 0 {
        focus_paths_are_exact(m, list.drop_last(), path);
    }
}

} // verus!
