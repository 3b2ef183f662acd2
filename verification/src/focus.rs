//! A focus: the share of the requests that an analyst selected.

use crate::event::Timestamp;
use crate::ordered::{TextMap, TextSet};
use crate::sums::{lemma_sum_empty, lemma_sum_insert, lemma_sum_remove, map_sum};
use crate::text::{
    chars_of, join, join_texts, matches_at, same_text, starts_with_text, text_between,
};
use crate::timeline::{RateWindow, RateWindowModel, Timeline, TimelineModel};
use crate::tracking::{
    tally_models, tally_requests, ConcentrationLimits, Observation, QueryModel, QueryShape, Tally,
    TallyModel,
};
use vstd::prelude::*;

verus! {

broadcast use vstd::string::group_string_axioms;

/// What a focus selects. It never asserts attack, abuse or identity.
#[derive(Clone, Debug)]
pub enum FocusSelector {
    /// One exact URI path.
    ExactPath(String),
    /// A path and everything under it.
    PathPrefix(String),
    /// One or more observed connection-peer addresses.
    SourceIp(TextSet),
}

pub enum SelectorModel {
    ExactPath(Seq<char>),
    PathPrefix(Seq<char>),
    SourceIp(Set<Seq<char>>),
}

impl View for FocusSelector {
    type V = SelectorModel;

    open spec fn view(&self) -> SelectorModel {
        match self {
            FocusSelector::ExactPath(value) => SelectorModel::ExactPath(value@),
            FocusSelector::PathPrefix(value) => SelectorModel::PathPrefix(value@),
            FocusSelector::SourceIp(values) => SelectorModel::SourceIp(values@),
        }
    }
}

/// A prefix without its trailing slash.
pub open spec fn bare_prefix(prefix: Seq<char>) -> Seq<char> {
    if prefix.len() > 0 && prefix.last() == '/' {
        prefix.drop_last()
    } else {
        prefix
    }
}

/// Whether a path is the prefix or lies in its subtree. A trailing slash of the prefix is
/// ignored, the root contains every path, and matching is on segments.
pub open spec fn under(path: Seq<char>, prefix: Seq<char>) -> bool {
    let bare = bare_prefix(prefix);
    bare.len() == 0 || path == bare || (starts_with_text(path, bare) && path.len() > bare.len()
        && path[bare.len() as int] == '/')
}

pub fn path_is_under(path: &str, prefix: &str) -> (r: bool)
    ensures
        r == under(path@, prefix@),
{
    let p = chars_of(path);
    let full = chars_of(prefix);
    let end: usize = if full.len() > 0 && full[full.len() - 1] == '/' {
        full.len() - 1
    } else {
        full.len()
    };
    let bare = chars_of(text_between(&full, 0, end).as_str());
    assert(bare@ =~= bare_prefix(prefix@));
    if bare.len() == 0 {
        return true;
    }
    if !matches_at(&p, &bare, 0) {
        assert(path@ != bare@) by {
            if path@ == bare@ {
                assert(path@.subrange(0, bare@.len() as int) =~= bare@);
            }
        }
        return false;
    }
    if p.len() == bare.len() {
        assert(path@.subrange(0, bare@.len() as int) =~= path@);
        return true;
    }
    p[bare.len()] == '/'
}

/// The root prefix contains every path, a path is under itself, and what is under a path that
/// is under a prefix is under the prefix.
pub proof fn subtrees_nest(path: Seq<char>, middle: Seq<char>, prefix: Seq<char>)
    requires
        under(path, middle),
        under(middle, prefix),
        bare_prefix(middle) == middle,
    ensures
        under(path, prefix),
        under(path, "/"@),
        under(middle, middle),
{
    reveal_strlit("/");
    let bare = bare_prefix(prefix);
    assert(bare_prefix("/"@).len() == 0);
    if middle.len() == 0 {
        assert(bare.len() == 0);
    } else if bare.len() > 0 && path != middle && middle != bare {
        assert(path.subrange(0, bare.len() as int) =~= path.subrange(
            0,
            middle.len() as int,
        ).subrange(0, bare.len() as int));
        assert(path.subrange(0, middle.len() as int)[bare.len() as int] == path[bare.len() as int]);
    }
}

/// A prefix does not select a path that merely starts with the same letters: the character after
/// the prefix is a slash.
pub proof fn prefixes_end_at_segments(path: Seq<char>, prefix: Seq<char>)
    requires
        under(path, prefix),
        bare_prefix(prefix).len() > 0,
        path.len() > bare_prefix(prefix).len(),
    ensures
        path[bare_prefix(prefix).len() as int] == '/',
{
}

impl FocusSelector {
    pub open spec fn wf(&self) -> bool {
        self matches FocusSelector::SourceIp(values) ==> values.wf()
    }

    /// Stable discriminator recorded in artifacts.
    pub fn kind(&self) -> (r: &'static str)
        ensures
            r@ == kind_of(self@),
    {
        match self {
            FocusSelector::ExactPath(_) => "exact-path",
            FocusSelector::PathPrefix(_) => "path-prefix",
            FocusSelector::SourceIp(_) => "source-ip",
        }
    }

    /// The selector as the analyst gave it: a path unchanged, addresses joined in their order.
    pub fn selector_display(&self) -> (r: String)
        requires
            self.wf(),
        ensures
            r@ == display_of(self@),
    {
        match self {
            FocusSelector::ExactPath(value) => value.clone(),
            FocusSelector::PathPrefix(value) => value.clone(),
            FocusSelector::SourceIp(values) => {
                proof {
                    values.lemma_order();
                }
                join(&values.to_list(), ", ")
            },
        }
    }

    pub fn matches(&self, path: Option<&str>, source: Option<&str>) -> (r: bool)
        requires
            self.wf(),
        ensures
            r == selects(self@, crate::event::opt_str(path), crate::event::opt_str(source)),
    {
        match self {
            FocusSelector::ExactPath(value) => match path {
                Some(p) => same_text(p, value.as_str()),
                None => false,
            },
            FocusSelector::PathPrefix(value) => match path {
                Some(p) => path_is_under(p, value.as_str()),
                None => false,
            },
            FocusSelector::SourceIp(values) => match source {
                Some(s) => values.contains(s),
                None => false,
            },
        }
    }
}

pub open spec fn kind_of(selector: SelectorModel) -> Seq<char> {
    match selector {
        SelectorModel::ExactPath(_) => "exact-path"@,
        SelectorModel::PathPrefix(_) => "path-prefix"@,
        SelectorModel::SourceIp(_) => "source-ip"@,
    }
}

pub open spec fn display_of(selector: SelectorModel) -> Seq<char> {
    match selector {
        SelectorModel::ExactPath(value) => value,
        SelectorModel::PathPrefix(value) => value,
        SelectorModel::SourceIp(values) => join_texts(
            crate::ordered::ordered_texts(values),
            ", "@,
        ),
    }
}

/// Whether a selector selects a request.
pub open spec fn selects(
    selector: SelectorModel,
    path: Option<Seq<char>>,
    source: Option<Seq<char>>,
) -> bool {
    match selector {
        SelectorModel::ExactPath(value) => path == Some(value),
        SelectorModel::PathPrefix(value) => path is Some && under(path.unwrap(), value),
        SelectorModel::SourceIp(values) => source is Some && values.contains(source.unwrap()),
    }
}

/// Tallies by key after one more request with the key: kept with it where the key is known or
/// there is room, else counted as beyond the bound.
pub open spec fn tallied(
    tallies: Map<Seq<char>, TallyModel>,
    beyond: nat,
    key: Seq<char>,
    status: Option<u16>,
    maximum: nat,
    maximum_codes: nat,
) -> (Map<Seq<char>, TallyModel>, nat) {
    if tallies.dom().contains(key) {
        (tallies.insert(key, tallies[key].recorded(status, maximum_codes)), beyond)
    } else if tallies.dom().len() < maximum {
        (tallies.insert(key, TallyModel::none().recorded(status, maximum_codes)), beyond)
    } else {
        (tallies, beyond + 1)
    }
}

pub open spec fn tallies_wf(tallies: TextMap<Tally>, beyond: u64, n: nat) -> bool {
    &&& tallies.wf()
    &&& forall|k: Seq<char>| #[trigger] tallies@.dom().contains(k) ==> tallies@[k]@.consistent()
    &&& map_sum(tally_requests(tally_models(tallies@))) + beyond <= n
}

proof fn lemma_tally_sums(m: Map<Seq<char>, TallyModel>, k: Seq<char>, v: TallyModel)
    requires
        m.dom().finite(),
    ensures
        map_sum(tally_requests(m.insert(k, v))) + (if m.dom().contains(k) {
            m[k].requests
        } else {
            0
        }) == map_sum(tally_requests(m)) + v.requests,
        m.dom().contains(k) ==> m[k].requests <= map_sum(tally_requests(m)),
{
    assert(tally_requests(m).dom() =~= m.dom());
    lemma_sum_insert(tally_requests(m), k, v.requests);
    assert(tally_requests(m.insert(k, v)) =~= tally_requests(m).insert(k, v.requests));
    if m.dom().contains(k) {
        lemma_sum_remove(tally_requests(m), k);
    }
}

fn tally_one(
    tallies: &mut TextMap<Tally>,
    beyond: &mut u64,
    key: &str,
    status: Option<u16>,
    maximum: usize,
    maximum_codes: usize,
    n: Ghost<nat>,
)
    requires
        tallies_wf(*old(tallies), *old(beyond), n@),
        n@ < u64::MAX,
    ensures
        tallies_wf(*final(tallies), *final(beyond), n@ + 1),
        (tally_models(final(tallies)@), *final(beyond) as nat) == tallied(
            tally_models(old(tallies)@),
            *old(beyond) as nat,
            key@,
            status,
            maximum as nat,
            maximum_codes as nat,
        ),
{
    let ghost before = *tallies;
    let ghost models = tally_models(before@);
    proof {
        tallies.lemma_positions();
        assert(models.dom() =~= before@.dom());
    }
    if let Some(item) = tallies.get_mut(key) {
        proof {
            lemma_tally_sums(models, key@, models[key@]);
        }
        item.record(status, maximum_codes);
        proof {
            let v = tallies@[key@];
            lemma_tally_sums(models, key@, v@);
            assert(tally_models(tallies@) =~= models.insert(key@, v@));
        }
        return ;
    }
    if tallies.len() < maximum {
        let mut item = Tally::new();
        item.record(status, maximum_codes);
        let ghost v = item;
        tallies.insert(key.to_owned(), item);
        proof {
            lemma_tally_sums(models, key@, v@);
            assert(tally_models(tallies@) =~= models.insert(key@, v@));
        }
    } else {
        *beyond = *beyond + 1;
    }
}

/// What is kept of the requests that the focus selected.
#[derive(Clone, Debug)]
pub struct FocusState {
    pub tally: Tally,
    pub sources: TextMap<Tally>,
    pub sources_beyond: u64,
    pub paths: TextMap<Tally>,
    pub paths_beyond: u64,
    pub minutes: Timeline,
    pub windows: Vec<RateWindow>,
    pub without_timestamp: u64,
    pub query: QueryShape,
}

pub struct FocusModel {
    pub tally: TallyModel,
    pub sources: Map<Seq<char>, TallyModel>,
    pub sources_beyond: nat,
    pub paths: Map<Seq<char>, TallyModel>,
    pub paths_beyond: nat,
    pub minutes: TimelineModel,
    pub windows: Seq<RateWindowModel>,
    pub without_timestamp: nat,
    pub query: QueryModel,
}

pub open spec fn rate_window_models(windows: Seq<RateWindow>) -> Seq<RateWindowModel> {
    windows.map_values(|w: RateWindow| w@)
}

impl View for FocusState {
    type V = FocusModel;

    open spec fn view(&self) -> FocusModel {
        FocusModel {
            tally: self.tally@,
            sources: tally_models(self.sources@),
            sources_beyond: self.sources_beyond as nat,
            paths: tally_models(self.paths@),
            paths_beyond: self.paths_beyond as nat,
            minutes: self.minutes@,
            windows: rate_window_models(self.windows@),
            without_timestamp: self.without_timestamp as nat,
            query: self.query@,
        }
    }
}

impl FocusModel {
    pub open spec fn none(widths: Seq<u64>, maximum_codes: nat) -> FocusModel {
        FocusModel {
            tally: TallyModel {
                codes: crate::status::CodeModel::none(maximum_codes),
                ..TallyModel::none()
            },
            sources: Map::empty(),
            sources_beyond: 0,
            paths: Map::empty(),
            paths_beyond: 0,
            minutes: TimelineModel::none(),
            windows: widths.map_values(|w: u64| RateWindowModel::none(w)),
            without_timestamp: 0,
            query: QueryModel::none(),
        }
    }

    /// The timelines after one more selected request.
    pub open spec fn timed(self, o: Observation, maximum: nat) -> FocusModel {
        match o.time {
            None => FocusModel { without_timestamp: self.without_timestamp + 1, ..self },
            Some(t) => FocusModel {
                minutes: self.minutes.counting(
                    maximum,
                    crate::timeline::bucket_of(t.seconds, 60),
                ),
                windows: self.windows.map_values(
                    |w: RateWindowModel| w.counting(maximum, t.seconds),
                ),
                ..self
            },
        }
    }

    /// What is kept after one more selected request. Its path is kept unless the focus is on
    /// one exact path.
    pub open spec fn observed(
        self,
        o: Observation,
        track_paths: bool,
        limits: ConcentrationLimits,
    ) -> FocusModel {
        let timed = self.timed(o, limits.max_minute_buckets as nat);
        let codes = limits.max_status_codes_per_entity as nat;
        let sources = match o.source {
            Some(source) => tallied(
                self.sources,
                self.sources_beyond,
                source,
                o.status,
                limits.max_focus_source_ips as nat,
                codes,
            ),
            None => (self.sources, self.sources_beyond),
        };
        let paths = if track_paths && o.path is Some {
            tallied(
                self.paths,
                self.paths_beyond,
                o.path.unwrap(),
                o.status,
                limits.max_focus_paths as nat,
                codes,
            )
        } else {
            (self.paths, self.paths_beyond)
        };
        FocusModel {
            tally: self.tally.recorded(o.status, codes),
            sources: sources.0,
            sources_beyond: sources.1,
            paths: paths.0,
            paths_beyond: paths.1,
            query: self.query.observed(
                o.query,
                limits.max_query_strings_per_path as nat,
                limits.max_query_keys_per_path as nat,
            ),
            ..timed
        }
    }
}

impl FocusState {
    pub open spec fn wf(&self, n: nat) -> bool {
        &&& self.tally@.consistent()
        &&& self.tally.requests <= n
        &&& tallies_wf(self.sources, self.sources_beyond, self.tally.requests as nat)
        &&& tallies_wf(self.paths, self.paths_beyond, self.tally.requests as nat)
        &&& self.minutes.wf()
        &&& self.minutes@.within(self.tally.requests as nat)
        &&& forall|i: int|
            0 <= i < self.windows@.len() ==> (#[trigger] self.windows@[i]).wf()
                && self.windows@[i]@.within(self.tally.requests as nat)
        &&& self.without_timestamp <= self.tally.requests
        &&& self.query.wf(self.tally.requests as nat)
    }

    pub fn new(widths: &Vec<u64>, maximum_codes: usize) -> (r: Self)
        requires
            forall|i: int| 0 <= i < widths@.len() ==> 0 < #[trigger] widths@[i] <= i64::MAX,
        ensures
            r.wf(0),
            r@ == FocusModel::none(widths@, maximum_codes as nat),
    {
        let mut windows: Vec<RateWindow> = Vec::new();
        let mut i: usize = 0;
        while i < widths.len()
            invariant
                i <= widths@.len(),
                windows@.len() == i,
                forall|j: int| 0 <= j < widths@.len() ==> 0 < #[trigger] widths@[j] <= i64::MAX,
                forall|j: int|
                    0 <= j < i ==> (#[trigger] windows@[j]).wf() && windows@[j]@.within(0)
                        && windows@[j]@ == RateWindowModel::none(widths@[j]),
            decreases widths.len() - i,
        {
            windows.push(RateWindow::new(widths[i]));
            i = i + 1;
        }
        assert(rate_window_models(windows@) =~= widths@.map_values(
            |w: u64| RateWindowModel::none(w),
        ));
        let mut tally = Tally::new();
        tally.codes = crate::status::StatusCodeCounts::with_maximum(maximum_codes);
        let r = FocusState {
            tally,
            sources: TextMap::new(),
            sources_beyond: 0,
            paths: TextMap::new(),
            paths_beyond: 0,
            minutes: Timeline::new(),
            windows,
            without_timestamp: 0,
            query: QueryShape::new(),
        };
        proof {
            assert(tally_models(r.sources@) =~= Map::<Seq<char>, TallyModel>::empty());
            assert(tally_models(r.paths@) =~= Map::<Seq<char>, TallyModel>::empty());
            assert(tally_requests(tally_models(r.sources@)) =~= Map::<Seq<char>, nat>::empty());
            assert(tally_requests(tally_models(r.paths@)) =~= Map::<Seq<char>, nat>::empty());
            lemma_sum_empty::<Seq<char>>();
        }
        r
    }

    fn track_time(
        &mut self,
        time: Option<Timestamp>,
        maximum: usize,
        o: Ghost<Observation>,
        n: Ghost<nat>,
    )
        requires
            old(self).minutes.wf(),
            old(self).minutes@.within(n@),
            forall|i: int|
                0 <= i < old(self).windows@.len() ==> (#[trigger] old(self).windows@[i]).wf()
                    && old(self).windows@[i]@.within(n@),
            old(self).without_timestamp <= n@,
            n@ < u64::MAX,
            o@.time == time,
        ensures
            final(self).minutes.wf(),
            final(self).minutes@.within(n@ + 1),
            forall|i: int|
                0 <= i < final(self).windows@.len() ==> (#[trigger] final(self).windows@[i]).wf()
                    && final(self).windows@[i]@.within(n@ + 1),
            final(self).without_timestamp <= n@ + 1,
            final(self)@ == old(self)@.timed(o@, maximum as nat),
            final(self).tally == old(self).tally,
            final(self).sources == old(self).sources,
            final(self).sources_beyond == old(self).sources_beyond,
            final(self).paths == old(self).paths,
            final(self).paths_beyond == old(self).paths_beyond,
            final(self).query == old(self).query,
    {
        let ghost before = *self;
        let instant = match time {
            Some(instant) => instant,
            None => {
                self.without_timestamp = self.without_timestamp + 1;
                assert(self.minutes@.within(n@ + 1));
                return ;
            },
        };
        assert(self.minutes@.within((u64::MAX - 1) as nat));
        let bucket = crate::numbers::floor_quotient(instant.seconds, 60);
        self.minutes.track_minute_bucket(maximum, bucket);
        let count = self.windows.len();
        let mut i: usize = 0;
        while i < count
            invariant
                forall|j: int|
                    0 <= j < before.windows@.len() ==> (#[trigger] before.windows@[j]).wf()
                        && before.windows@[j]@.within(n@),
                n@ < u64::MAX,
                i <= count,
                count == self.windows@.len(),
                count == before.windows@.len(),
                self.minutes.wf(),
                self.minutes@.within(n@ + 1),
                self.minutes@ == before.minutes@.counting(
                    maximum as nat,
                    crate::timeline::bucket_of(instant.seconds, 60),
                ),
                self.without_timestamp == before.without_timestamp,
                self.tally == before.tally,
                self.sources == before.sources,
                self.sources_beyond == before.sources_beyond,
                self.paths == before.paths,
                self.paths_beyond == before.paths_beyond,
                self.query == before.query,
                forall|j: int|
                    0 <= j < i ==> (#[trigger] self.windows@[j]).wf() && self.windows@[j]@.within(
                        n@ + 1,
                    ) && self.windows@[j]@ == before.windows@[j]@.counting(
                        maximum as nat,
                        instant.seconds,
                    ),
                forall|j: int| i <= j < count ==> #[trigger] self.windows@[j] == before.windows@[j],
            decreases count - i,
        {
            assert(before.windows@[i as int].wf() && before.windows@[i as int]@.within(n@));
            assert(before.windows@[i as int]@.within((u64::MAX - 1) as nat));
            let window = &mut self.windows[i];
            window.track(maximum, instant.seconds);
            i = i + 1;
        }
        assert(self@.windows =~= before@.timed(o@, maximum as nat).windows);
    }

    pub(crate) fn observe(
        &mut self,
        time: Option<Timestamp>,
        source: Option<&str>,
        path: Option<&str>,
        query: Option<&str>,
        status: Option<u16>,
        track_paths: bool,
        limits: &ConcentrationLimits,
        o: Ghost<Observation>,
        n: Ghost<nat>,
    )
        requires
            old(self).wf(n@),
            n@ < u64::MAX,
            o@.time == time,
            o@.source == crate::event::opt_str(source),
            o@.path == crate::event::opt_str(path),
            o@.query == crate::event::opt_str(query),
            o@.status == status,
            old(self)@.query.room(o@.query),
        ensures
            final(self).wf(n@ + 1),
            final(self)@ == old(self)@.observed(o@, track_paths, *limits),
    {
        let ghost before = *self;
        let ghost m = self.tally.requests as nat;
        self.track_time(time, limits.max_minute_buckets, o, Ghost(m));
        self.tally.record(status, limits.max_status_codes_per_entity);
        self.query.observe_query_shape(
            query,
            limits.max_query_strings_per_path,
            limits.max_query_keys_per_path,
            Ghost(m),
        );
        if let Some(key) = source {
            tally_one(
                &mut self.sources,
                &mut self.sources_beyond,
                key,
                status,
                limits.max_focus_source_ips,
                limits.max_status_codes_per_entity,
                Ghost(m),
            );
        }
        if track_paths {
            if let Some(key) = path {
                tally_one(
                    &mut self.paths,
                    &mut self.paths_beyond,
                    key,
                    status,
                    limits.max_focus_paths,
                    limits.max_status_codes_per_entity,
                    Ghost(m),
                );
            }
        }
    }
}

} // verus!
