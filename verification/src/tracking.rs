//! Bounded accumulators for request volume: what is kept for each path, each source address,
//! each pair of them, and over time.

use crate::event::Timestamp;
use crate::ordered::{TextMap, TextSet};
use crate::status::{
    lemma_room_to_add, record_status_class, CodeModel, StatusClassCounts, StatusCodeCounts,
};
use crate::sums::{lemma_sum_empty, lemma_sum_insert, map_sum};
use crate::text::{
    chars_of, find_char, first_of, split, split_on, text_between, texts,
};
use crate::timeline::{OutcomeWindow, OutcomeWindowModel};
use vstd::prelude::*;

verus! {

#[derive(Clone, Copy, Debug, PartialEq, Eq, Structural)]
pub struct ConcentrationLimits {
    pub max_source_segments: usize,
    pub max_paths: usize,
    pub max_source_ips: usize,
    pub max_focus_source_ips: usize,
    pub max_focus_paths: usize,
    pub max_source_path_pairs: usize,
    pub max_minute_buckets: usize,
    pub max_query_strings_per_path: usize,
    pub max_query_keys_per_path: usize,
    pub max_status_codes_per_entity: usize,
}

/// What the measurement reads of a request.
pub struct Observation {
    pub time: Option<Timestamp>,
    pub source: Option<Seq<char>>,
    pub path: Option<Seq<char>>,
    pub query: Option<Seq<char>>,
    pub status: Option<u16>,
    pub bytes: Option<u64>,
}

/// A set with room for `limit` members, and the number of values that found no place, after one
/// more value.
pub open spec fn retained(set: Set<Seq<char>>, omitted: nat, value: Seq<char>, limit: nat) -> (
    Set<Seq<char>>,
    nat,
) {
    if set.contains(value) {
        (set, omitted)
    } else if set.len() < limit {
        (set.insert(value), omitted)
    } else {
        (set, omitted + 1)
    }
}

/// The same after each value of a list in turn.
pub open spec fn retained_all(
    set: Set<Seq<char>>,
    omitted: nat,
    values: Seq<Seq<char>>,
    limit: nat,
) -> (Set<Seq<char>>, nat)
    decreases values.len(),
{
    if values.len() == 0 {
        (set, omitted)
    } else {
        let before = retained_all(set, omitted, values.drop_last(), limit);
        retained(before.0, before.1, values.last(), limit)
    }
}

pub(crate) fn retain(set: &mut TextSet, omitted: &mut u64, value: &str, limit: usize)
    requires
        old(set).wf(),
        *old(omitted) < u64::MAX,
    ensures
        final(set).wf(),
        (final(set)@, *final(omitted) as nat) == retained(
            old(set)@,
            *old(omitted) as nat,
            value@,
            limit as nat,
        ),
        *old(omitted) <= *final(omitted) <= *old(omitted) + 1,
{
    if !set.contains(value) {
        if set.len() < limit {
            set.insert(value.to_owned());
        } else {
            *omitted = *omitted + 1;
        }
    }
}

/// The name before the first equals sign of a query component.
pub open spec fn key_name(component: Seq<char>) -> Seq<char> {
    component.take(first_of(component, '='))
}

pub open spec fn names_of(components: Seq<Seq<char>>) -> Seq<Seq<char>>
    decreases components.len(),
{
    if components.len() == 0 {
        seq![]
    } else {
        let before = names_of(components.drop_last());
        let name = key_name(components.last());
        if name.len() == 0 {
            before
        } else {
            before.push(name)
        }
    }
}

/// The literal key names of a query, in observation order, without empty ones. Nothing is
/// decoded.
pub open spec fn key_names(query: Seq<char>) -> Seq<Seq<char>> {
    names_of(split_on(query, '&'))
}

pub fn query_keys(query: &str) -> (r: Vec<String>)
    ensures
        texts(r@) == key_names(query@),
{
    let parts = split(query, '&');
    let ghost components = split_on(query@, '&');
    let mut r: Vec<String> = Vec::new();
    let mut i: usize = 0;
    while i < parts.len()
        invariant
            texts(parts@) == components,
            i <= parts@.len(),
            texts(r@) == names_of(components.take(i as int)),
        decreases parts.len() - i,
    {
        let chars = chars_of(parts[i].as_str());
        assert(components[i as int] == chars@);
        assert(chars@.skip(0) =~= chars@);
        let end = find_char(&chars, '=', 0);
        assert(components.take(i + 1).drop_last() =~= components.take(i as int));
        if end > 0 {
            let name = text_between(&chars, 0, end);
            assert(name@ =~= key_name(components[i as int]));
            assert(texts(r@.push(name)) =~= texts(r@).push(name@));
            r.push(name);
        }
        i = i + 1;
    }
    assert(components.take(i as int) =~= components);
    r
}

/// The shape of the queries of a set of requests: cardinalities only, never values.
#[derive(Clone, Debug)]
pub struct QueryShape {
    pub requests_with_query: u64,
    pub strings: TextSet,
    pub strings_beyond: u64,
    pub keys: TextSet,
    pub keys_beyond: u64,
}

pub struct QueryModel {
    pub requests_with_query: nat,
    pub strings: Set<Seq<char>>,
    pub strings_beyond: nat,
    pub keys: Set<Seq<char>>,
    pub keys_beyond: nat,
}

impl View for QueryShape {
    type V = QueryModel;

    open spec fn view(&self) -> QueryModel {
        QueryModel {
            requests_with_query: self.requests_with_query as nat,
            strings: self.strings@,
            strings_beyond: self.strings_beyond as nat,
            keys: self.keys@,
            keys_beyond: self.keys_beyond as nat,
        }
    }
}

impl QueryModel {
    pub open spec fn none() -> QueryModel {
        QueryModel {
            requests_with_query: 0,
            strings: Set::empty(),
            strings_beyond: 0,
            keys: Set::empty(),
            keys_beyond: 0,
        }
    }

    /// The shape after one more request, with the query it had.
    pub open spec fn observed(
        self,
        query: Option<Seq<char>>,
        maximum_strings: nat,
        maximum_keys: nat,
    ) -> QueryModel {
        match query {
            None => self,
            Some(q) => {
                let strings = retained(self.strings, self.strings_beyond, q, maximum_strings);
                let keys = retained_all(self.keys, self.keys_beyond, key_names(q), maximum_keys);
                QueryModel {
                    requests_with_query: self.requests_with_query + 1,
                    strings: strings.0,
                    strings_beyond: strings.1,
                    keys: keys.0,
                    keys_beyond: keys.1,
                }
            },
        }
    }

    /// Whether the key names of one more query can still be counted.
    pub open spec fn room(self, query: Option<Seq<char>>) -> bool {
        query matches Some(q) ==> self.keys_beyond + key_names(q).len() <= u64::MAX
    }
}

impl QueryShape {
    pub open spec fn wf(&self, n: nat) -> bool {
        &&& self.strings.wf()
        &&& self.keys.wf()
        &&& self.requests_with_query <= n
        &&& self.strings_beyond <= self.requests_with_query
    }

    pub fn new() -> (r: Self)
        ensures
            r.wf(0),
            r@ == QueryModel::none(),
    {
        QueryShape {
            requests_with_query: 0,
            strings: TextSet::new(),
            strings_beyond: 0,
            keys: TextSet::new(),
            keys_beyond: 0,
        }
    }

    pub fn has_room(&self, query: Option<&str>) -> (r: bool)
        ensures
            r == self@.room(crate::event::opt_str(query)),
            self.keys_beyond == 0 ==> r,
    {
        match query {
            Some(q) => {
                let names = query_keys(q);
                assert(names@.len() == key_names(q@).len());
                self.keys_beyond as u128 + names.len() as u128 <= u64::MAX as u128
            },
            None => true,
        }
    }

    pub(crate) fn observe_query_shape(
        &mut self,
        query: Option<&str>,
        maximum_strings: usize,
        maximum_keys: usize,
        n: Ghost<nat>,
    )
        requires
            old(self).wf(n@),
            n@ < u64::MAX,
            old(self)@.room(crate::event::opt_str(query)),
        ensures
            final(self).wf(n@ + 1),
            final(self)@ == old(self)@.observed(
                crate::event::opt_str(query),
                maximum_strings as nat,
                maximum_keys as nat,
            ),
    {
        let text = match query {
            Some(text) => text,
            None => {
                return ;
            },
        };
        let ghost before = *self;
        self.requests_with_query = self.requests_with_query + 1;
        retain(&mut self.strings, &mut self.strings_beyond, text, maximum_strings);
        let names = query_keys(text);
        let ghost all = key_names(text@);
        assert(names@.len() == all.len());
        let mut i: usize = 0;
        while i < names.len()
            invariant
                texts(names@) == all,
                names@.len() == all.len(),
                i <= names@.len(),
                self.keys.wf(),
                self.strings.wf(),
                self.requests_with_query == before.requests_with_query + 1,
                self.strings_beyond <= self.requests_with_query,
                (self.strings@, self.strings_beyond as nat) == retained(
                    before@.strings,
                    before@.strings_beyond,
                    text@,
                    maximum_strings as nat,
                ),
                before.keys_beyond + all.len() <= u64::MAX,
                self.keys_beyond <= before.keys_beyond + i,
                (self.keys@, self.keys_beyond as nat) == retained_all(
                    before@.keys,
                    before@.keys_beyond,
                    all.take(i as int),
                    maximum_keys as nat,
                ),
            decreases names.len() - i,
        {
            assert(all.take(i + 1).drop_last() =~= all.take(i as int));
            assert(all[i as int] == names@[i as int]@);
            retain(&mut self.keys, &mut self.keys_beyond, names[i].as_str(), maximum_keys);
            i = i + 1;
        }
        assert(all.take(i as int) =~= all);
    }
}

/// Requests with their outcomes.
#[derive(Clone, Debug)]
pub struct Tally {
    pub requests: u64,
    pub classes: StatusClassCounts,
    pub codes: StatusCodeCounts,
}

pub struct TallyModel {
    pub requests: nat,
    pub classes: StatusClassCounts,
    pub codes: CodeModel,
}

impl View for Tally {
    type V = TallyModel;

    open spec fn view(&self) -> TallyModel {
        TallyModel { requests: self.requests as nat, classes: self.classes, codes: self.codes@ }
    }
}

impl TallyModel {
    pub open spec fn none() -> TallyModel {
        TallyModel {
            requests: 0,
            classes: StatusClassCounts::none(),
            codes: CodeModel::none(
                crate::status::DEFAULT_MAX_STATUS_CODES_PER_ENTITY as nat,
            ),
        }
    }

    pub open spec fn recorded(self, status: Option<u16>, maximum: nat) -> TallyModel {
        TallyModel {
            requests: self.requests + 1,
            classes: self.classes.recorded(status),
            codes: self.codes.recorded(status, maximum),
        }
    }

    /// The classes count every request, the codes no more than that.
    pub open spec fn consistent(self) -> bool {
        &&& self.classes.wf()
        &&& self.classes.total() == self.requests
        &&& self.codes.weight() <= self.requests
    }
}

impl Tally {
    pub fn new() -> (r: Self)
        ensures
            r@ == TallyModel::none(),
            r@.consistent(),
    {
        Tally { requests: 0, classes: StatusClassCounts::default(), codes: StatusCodeCounts::default() }
    }

    pub fn record(&mut self, status: Option<u16>, maximum: usize)
        requires
            old(self)@.consistent(),
            old(self)@.requests < u64::MAX,
        ensures
            final(self)@ == old(self)@.recorded(status, maximum as nat),
            final(self)@.consistent(),
    {
        self.requests = self.requests + 1;
        record_status_class(&mut self.classes, status);
        proof {
            if let Some(code) = status {
                lemma_room_to_add(CodeModel { maximum: maximum as nat, ..self.codes@ }, code, 1);
            }
        }
        self.codes.record(status, maximum);
    }
}

/// What is kept of the requests for one path.
#[derive(Clone, Debug)]
pub struct PathAccumulator {
    pub tally: Tally,
    pub sources: TextSet,
    pub response_bytes: u64,
    pub query: QueryShape,
}

pub struct PathModel {
    pub tally: TallyModel,
    pub sources: Set<Seq<char>>,
    pub response_bytes: nat,
    pub query: QueryModel,
}

impl View for PathAccumulator {
    type V = PathModel;

    open spec fn view(&self) -> PathModel {
        PathModel {
            tally: self.tally@,
            sources: self.sources@,
            response_bytes: self.response_bytes as nat,
            query: self.query@,
        }
    }
}

pub open spec fn bytes_of(available: bool, bytes: Option<u64>) -> nat {
    if available && bytes is Some {
        bytes.unwrap() as nat
    } else {
        0
    }
}

impl PathModel {
    pub open spec fn none() -> PathModel {
        PathModel {
            tally: TallyModel::none(),
            sources: Set::empty(),
            response_bytes: 0,
            query: QueryModel::none(),
        }
    }

    /// What is kept after one more request. Its source counts where it is admitted, its size
    /// where sizes are available.
    pub open spec fn observed(
        self,
        o: Observation,
        source_admitted: bool,
        bytes_available: bool,
        limits: ConcentrationLimits,
    ) -> PathModel {
        PathModel {
            tally: self.tally.recorded(o.status, limits.max_status_codes_per_entity as nat),
            sources: if source_admitted && o.source is Some {
                self.sources.insert(o.source.unwrap())
            } else {
                self.sources
            },
            response_bytes: self.response_bytes + bytes_of(bytes_available, o.bytes),
            query: self.query.observed(
                o.query,
                limits.max_query_strings_per_path as nat,
                limits.max_query_keys_per_path as nat,
            ),
        }
    }

    /// Whether one more request can still be counted.
    pub open spec fn room(self, o: Observation, bytes_available: bool) -> bool {
        &&& self.response_bytes + bytes_of(bytes_available, o.bytes) <= u64::MAX
        &&& self.query.room(o.query)
    }
}

impl PathAccumulator {
    pub open spec fn wf(&self) -> bool {
        &&& self.tally@.consistent()
        &&& self.sources.wf()
        &&& self.query.wf(self.tally.requests as nat)
    }

    pub fn new() -> (r: Self)
        ensures
            r.wf(),
            r@ == PathModel::none(),
            r.tally.requests == 0,
    {
        PathAccumulator {
            tally: Tally::new(),
            sources: TextSet::new(),
            response_bytes: 0,
            query: QueryShape::new(),
        }
    }

    pub(crate) fn observe(
        &mut self,
        source: Option<&str>,
        status: Option<u16>,
        bytes: Option<u64>,
        query: Option<&str>,
        source_admitted: bool,
        bytes_available: bool,
        limits: &ConcentrationLimits,
        o: Ghost<Observation>,
    )
        requires
            old(self).wf(),
            old(self).tally.requests < u64::MAX,
            o@.source == crate::event::opt_str(source),
            o@.status == status,
            o@.bytes == bytes,
            o@.query == crate::event::opt_str(query),
            old(self)@.room(o@, bytes_available),
        ensures
            final(self).wf(),
            final(self)@ == old(self)@.observed(o@, source_admitted, bytes_available, *limits),
            final(self).tally.requests == old(self).tally.requests + 1,
    {
        let ghost n = self.tally.requests as nat;
        self.tally.record(status, limits.max_status_codes_per_entity);
        let ghost sources = self.sources@;
        if let Some(text) = source {
            if source_admitted {
                if !self.sources.contains(text) {
                    self.sources.insert(text.to_owned());
                } else {
                    assert(sources.insert(text@) =~= sources);
                }
            }
        }
        if bytes_available {
            if let Some(size) = bytes {
                self.response_bytes = self.response_bytes + size;
            }
        }
        self.query.observe_query_shape(
            query,
            limits.max_query_strings_per_path,
            limits.max_query_keys_per_path,
            Ghost(n),
        );
    }
}

/// The first segment of a path, spelled as it was observed.
pub open spec fn first_segment(path: Seq<char>) -> Seq<char> {
    let rest = if path.len() > 0 && path[0] == '/' {
        path.skip(1)
    } else {
        path
    };
    rest.take(first_of(rest, '/'))
}

pub fn segment_of(path: &str) -> (r: String)
    ensures
        r@ == first_segment(path@),
{
    let chars = chars_of(path);
    let start: usize = if chars.len() > 0 && chars[0] == '/' {
        1
    } else {
        0
    };
    let end = find_char(&chars, '/', start);
    let r = text_between(&chars, start, end);
    proof {
        let rest = path@.skip(start as int);
        if start == 0 {
            assert(rest =~= path@);
        }
        assert(r@ =~= rest.take(end - start));
    }
    r
}

/// What is kept of the requests from one source address.
#[derive(Clone, Debug)]
pub struct SourceAccumulator {
    pub tally: Tally,
    pub segments: TextSet,
    pub segments_404: TextSet,
    pub segments_beyond_cap: u64,
    pub segments_404_beyond_cap: u64,
    pub paths_unavailable: u64,
}

pub struct SourceModel {
    pub tally: TallyModel,
    pub segments: Set<Seq<char>>,
    pub segments_404: Set<Seq<char>>,
    pub segments_beyond_cap: nat,
    pub segments_404_beyond_cap: nat,
    pub paths_unavailable: nat,
}

impl View for SourceAccumulator {
    type V = SourceModel;

    open spec fn view(&self) -> SourceModel {
        SourceModel {
            tally: self.tally@,
            segments: self.segments@,
            segments_404: self.segments_404@,
            segments_beyond_cap: self.segments_beyond_cap as nat,
            segments_404_beyond_cap: self.segments_404_beyond_cap as nat,
            paths_unavailable: self.paths_unavailable as nat,
        }
    }
}

impl SourceModel {
    pub open spec fn none() -> SourceModel {
        SourceModel {
            tally: TallyModel::none(),
            segments: Set::empty(),
            segments_404: Set::empty(),
            segments_beyond_cap: 0,
            segments_404_beyond_cap: 0,
            paths_unavailable: 0,
        }
    }

    /// The first path segments after one more request: one set of all, one of those that were
    /// answered with 404.
    pub open spec fn segmented(
        self,
        path: Option<Seq<char>>,
        status: Option<u16>,
        limit: nat,
    ) -> SourceModel {
        match path {
            None => SourceModel { paths_unavailable: self.paths_unavailable + 1, ..self },
            Some(p) => {
                let all = retained(self.segments, self.segments_beyond_cap, first_segment(p), limit);
                let missed = if status == Some(404u16) {
                    retained(
                        self.segments_404,
                        self.segments_404_beyond_cap,
                        first_segment(p),
                        limit,
                    )
                } else {
                    (self.segments_404, self.segments_404_beyond_cap)
                };
                SourceModel {
                    segments: all.0,
                    segments_beyond_cap: all.1,
                    segments_404: missed.0,
                    segments_404_beyond_cap: missed.1,
                    ..self
                }
            },
        }
    }

    pub open spec fn observed(self, o: Observation, limits: ConcentrationLimits) -> SourceModel {
        let segmented = self.segmented(o.path, o.status, limits.max_source_segments as nat);
        SourceModel {
            tally: self.tally.recorded(o.status, limits.max_status_codes_per_entity as nat),
            ..segmented
        }
    }
}

impl SourceAccumulator {
    pub open spec fn wf(&self) -> bool {
        &&& self.tally@.consistent()
        &&& self.segments.wf()
        &&& self.segments_404.wf()
        &&& self.segments_beyond_cap <= self.tally.requests
        &&& self.segments_404_beyond_cap <= self.tally.requests
        &&& self.paths_unavailable <= self.tally.requests
    }

    pub fn new() -> (r: Self)
        ensures
            r.wf(),
            r@ == SourceModel::none(),
            r.tally.requests == 0,
    {
        SourceAccumulator {
            tally: Tally::new(),
            segments: TextSet::new(),
            segments_404: TextSet::new(),
            segments_beyond_cap: 0,
            segments_404_beyond_cap: 0,
            paths_unavailable: 0,
        }
    }

    pub fn record_segments(&mut self, path: Option<&str>, status: Option<u16>, limit: usize)
        requires
            old(self).wf(),
            old(self).tally.requests < u64::MAX,
        ensures
            final(self)@ == old(self)@.segmented(
                crate::event::opt_str(path),
                status,
                limit as nat,
            ),
            final(self).tally == old(self).tally,
            final(self).segments.wf(),
            final(self).segments_404.wf(),
            final(self).segments_beyond_cap <= old(self).tally.requests + 1,
            final(self).segments_404_beyond_cap <= old(self).tally.requests + 1,
            final(self).paths_unavailable <= old(self).tally.requests + 1,
    {
        match path {
            None => {
                self.paths_unavailable = self.paths_unavailable + 1;
            },
            Some(text) => {
                let segment = segment_of(text);
                retain(
                    &mut self.segments,
                    &mut self.segments_beyond_cap,
                    segment.as_str(),
                    limit,
                );
                let missed = match status {
                    Some(code) => code == 404,
                    None => false,
                };
                if missed {
                    retain(
                        &mut self.segments_404,
                        &mut self.segments_404_beyond_cap,
                        segment.as_str(),
                        limit,
                    );
                }
            },
        }
    }

    pub(crate) fn observe(
        &mut self,
        path: Option<&str>,
        status: Option<u16>,
        limits: &ConcentrationLimits,
        o: Ghost<Observation>,
    )
        requires
            old(self).wf(),
            old(self).tally.requests < u64::MAX,
            o@.path == crate::event::opt_str(path),
            o@.status == status,
        ensures
            final(self).wf(),
            final(self)@ == old(self)@.observed(o@, *limits),
            final(self).tally.requests == old(self).tally.requests + 1,
    {
        self.record_segments(path, status, limits.max_source_segments);
        self.tally.record(status, limits.max_status_codes_per_entity);
    }
}


pub open spec fn path_models(m: Map<Seq<char>, PathAccumulator>) -> Map<Seq<char>, PathModel> {
    m.map_values(|p: PathAccumulator| p@)
}

/// The number of requests for each path.
pub open spec fn path_requests(m: Map<Seq<char>, PathModel>) -> Map<Seq<char>, nat> {
    m.map_values(|p: PathModel| p.tally.requests)
}

pub open spec fn source_models(m: Map<Seq<char>, SourceAccumulator>) -> Map<
    Seq<char>,
    SourceModel,
> {
    m.map_values(|s: SourceAccumulator| s@)
}

/// The number of requests from each source.
pub open spec fn source_requests(m: Map<Seq<char>, SourceModel>) -> Map<Seq<char>, nat> {
    m.map_values(|s: SourceModel| s.tally.requests)
}

pub open spec fn tally_models(m: Map<Seq<char>, Tally>) -> Map<Seq<char>, TallyModel> {
    m.map_values(|t: Tally| t@)
}

pub open spec fn tally_requests(m: Map<Seq<char>, TallyModel>) -> Map<Seq<char>, nat> {
    m.map_values(|t: TallyModel| t.requests)
}

/// The paths, the requests for paths beyond the bound, and the requests without a path.
#[derive(Clone, Debug)]
pub struct PathBook {
    pub paths: TextMap<PathAccumulator>,
    pub beyond: u64,
    pub missing: u64,
}

pub struct PathBookModel {
    pub paths: Map<Seq<char>, PathModel>,
    pub beyond: nat,
    pub missing: nat,
}

impl View for PathBook {
    type V = PathBookModel;

    open spec fn view(&self) -> PathBookModel {
        PathBookModel {
            paths: path_models(self.paths@),
            beyond: self.beyond as nat,
            missing: self.missing as nat,
        }
    }
}

impl PathBookModel {
    pub open spec fn none() -> PathBookModel {
        PathBookModel { paths: Map::empty(), beyond: 0, missing: 0 }
    }

    /// Whether a request for the path is kept with the path.
    pub open spec fn admits(self, path: Seq<char>, maximum: nat) -> bool {
        self.paths.dom().contains(path) || self.paths.dom().len() < maximum
    }

    pub open spec fn observed(
        self,
        o: Observation,
        source_admitted: bool,
        bytes_available: bool,
        limits: ConcentrationLimits,
    ) -> PathBookModel {
        match o.path {
            None => PathBookModel { missing: self.missing + 1, ..self },
            Some(path) => if self.admits(path, limits.max_paths as nat) {
                let item = if self.paths.dom().contains(path) {
                    self.paths[path]
                } else {
                    PathModel::none()
                };
                PathBookModel {
                    paths: self.paths.insert(
                        path,
                        item.observed(o, source_admitted, bytes_available, limits),
                    ),
                    ..self
                }
            } else {
                PathBookModel { beyond: self.beyond + 1, ..self }
            },
        }
    }

    /// Whether one more request can still be counted.
    pub open spec fn room(self, o: Observation, bytes_available: bool) -> bool {
        o.path matches Some(path) ==> self.paths.dom().contains(path) ==> self.paths[path].room(
            o,
            bytes_available,
        )
    }

    /// Every request is kept with its path, counted as beyond the bound, or had no path.
    pub open spec fn accounts_for(self, n: nat) -> bool {
        map_sum(path_requests(self.paths)) + self.beyond + self.missing == n
    }
}

proof fn lemma_path_sums(m: Map<Seq<char>, PathModel>, k: Seq<char>, v: PathModel)
    requires
        m.dom().finite(),
    ensures
        map_sum(path_requests(m.insert(k, v))) + (if m.dom().contains(k) {
            m[k].tally.requests
        } else {
            0
        }) == map_sum(path_requests(m)) + v.tally.requests,
        m.dom().contains(k) ==> m[k].tally.requests <= map_sum(path_requests(m)),
{
    assert(path_requests(m).dom() =~= m.dom());
    lemma_sum_insert(path_requests(m), k, v.tally.requests);
    assert(path_requests(m.insert(k, v)) =~= path_requests(m).insert(k, v.tally.requests));
    if m.dom().contains(k) {
        crate::sums::lemma_sum_remove(path_requests(m), k);
    }
}

impl PathBook {
    pub open spec fn wf(&self, n: nat) -> bool {
        &&& self.paths.wf()
        &&& forall|k: Seq<char>| #[trigger] self.paths@.dom().contains(k) ==> self.paths@[k].wf()
        &&& self@.accounts_for(n)
    }

    pub fn new() -> (r: Self)
        ensures
            r.wf(0),
            r@ == PathBookModel::none(),
    {
        let r = PathBook { paths: TextMap::new(), beyond: 0, missing: 0 };
        proof {
            assert(path_models(r.paths@) =~= Map::<Seq<char>, PathModel>::empty());
            assert(path_requests(r@.paths) =~= Map::<Seq<char>, nat>::empty());
            lemma_sum_empty::<Seq<char>>();
        }
        r
    }

    pub(crate) fn track_path(
        &mut self,
        path: Option<&str>,
        source: Option<&str>,
        status: Option<u16>,
        bytes: Option<u64>,
        query: Option<&str>,
        source_admitted: bool,
        bytes_available: bool,
        limits: &ConcentrationLimits,
        o: Ghost<Observation>,
        n: Ghost<nat>,
    )
        requires
            old(self).wf(n@),
            n@ < u64::MAX,
            o@.path == crate::event::opt_str(path),
            o@.source == crate::event::opt_str(source),
            o@.status == status,
            o@.bytes == bytes,
            o@.query == crate::event::opt_str(query),
            old(self)@.room(o@, bytes_available),
        ensures
            final(self).wf(n@ + 1),
            final(self)@ == old(self)@.observed(o@, source_admitted, bytes_available, *limits),
    {
        let ghost before = *self;
        proof {
            self.paths.lemma_positions();
            assert(self@.paths.dom() =~= self.paths@.dom());
        }
        let key = match path {
            Some(key) => key,
            None => {
                self.missing = self.missing + 1;
                return ;
            },
        };
        if let Some(item) = self.paths.get_mut(key) {
            proof {
                lemma_path_sums(before@.paths, key@, before@.paths[key@]);
            }
            item.observe(source, status, bytes, query, source_admitted, bytes_available, limits, o);
            proof {
                let v = self.paths@[key@];
                lemma_path_sums(before@.paths, key@, v@);
                assert(path_models(self.paths@) =~= path_models(before.paths@).insert(key@, v@));
            }
            return ;
        }
        if self.paths.len() >= limits.max_paths {
            self.beyond = self.beyond + 1;
            return ;
        }
        let mut item = PathAccumulator::new();
        let _ = item.query.has_room(query);
        item.observe(source, status, bytes, query, source_admitted, bytes_available, limits, o);
        let ghost v = item;
        self.paths.insert(key.to_owned(), item);
        proof {
            lemma_path_sums(before@.paths, key@, v@);
            assert(path_models(self.paths@) =~= path_models(before.paths@).insert(key@, v@));
        }
    }
}

/// The sources, the requests from sources beyond the bound, and the requests without a source.
#[derive(Clone, Debug)]
pub struct SourceBook {
    pub sources: TextMap<SourceAccumulator>,
    pub beyond: u64,
    pub missing: u64,
}

pub struct SourceBookModel {
    pub sources: Map<Seq<char>, SourceModel>,
    pub beyond: nat,
    pub missing: nat,
}

impl View for SourceBook {
    type V = SourceBookModel;

    open spec fn view(&self) -> SourceBookModel {
        SourceBookModel {
            sources: source_models(self.sources@),
            beyond: self.beyond as nat,
            missing: self.missing as nat,
        }
    }
}

impl SourceBookModel {
    pub open spec fn none() -> SourceBookModel {
        SourceBookModel { sources: Map::empty(), beyond: 0, missing: 0 }
    }

    pub open spec fn admits(self, source: Seq<char>, maximum: nat) -> bool {
        self.sources.dom().contains(source) || self.sources.dom().len() < maximum
    }

    pub open spec fn observed(self, o: Observation, limits: ConcentrationLimits) -> SourceBookModel {
        match o.source {
            None => SourceBookModel { missing: self.missing + 1, ..self },
            Some(source) => if self.admits(source, limits.max_source_ips as nat) {
                let item = if self.sources.dom().contains(source) {
                    self.sources[source]
                } else {
                    SourceModel::none()
                };
                SourceBookModel {
                    sources: self.sources.insert(source, item.observed(o, limits)),
                    ..self
                }
            } else {
                SourceBookModel { beyond: self.beyond + 1, ..self }
            },
        }
    }

    /// Every request is kept with its source, counted as beyond the bound, or had no source.
    pub open spec fn accounts_for(self, n: nat) -> bool {
        map_sum(source_requests(self.sources)) + self.beyond + self.missing == n
    }
}

proof fn lemma_source_sums(m: Map<Seq<char>, SourceModel>, k: Seq<char>, v: SourceModel)
    requires
        m.dom().finite(),
    ensures
        map_sum(source_requests(m.insert(k, v))) + (if m.dom().contains(k) {
            m[k].tally.requests
        } else {
            0
        }) == map_sum(source_requests(m)) + v.tally.requests,
        m.dom().contains(k) ==> m[k].tally.requests <= map_sum(source_requests(m)),
{
    assert(source_requests(m).dom() =~= m.dom());
    lemma_sum_insert(source_requests(m), k, v.tally.requests);
    assert(source_requests(m.insert(k, v)) =~= source_requests(m).insert(k, v.tally.requests));
    if m.dom().contains(k) {
        crate::sums::lemma_sum_remove(source_requests(m), k);
    }
}

impl SourceBook {
    pub open spec fn wf(&self, n: nat) -> bool {
        &&& self.sources.wf()
        &&& forall|k: Seq<char>| #[trigger]
            self.sources@.dom().contains(k) ==> self.sources@[k].wf()
        &&& self@.accounts_for(n)
    }

    pub fn new() -> (r: Self)
        ensures
            r.wf(0),
            r@ == SourceBookModel::none(),
    {
        let r = SourceBook { sources: TextMap::new(), beyond: 0, missing: 0 };
        proof {
            assert(source_models(r.sources@) =~= Map::<Seq<char>, SourceModel>::empty());
            assert(source_requests(r@.sources) =~= Map::<Seq<char>, nat>::empty());
            lemma_sum_empty::<Seq<char>>();
        }
        r
    }

    /// Whether a request from the source will be kept with it.
    pub(crate) fn admits(&self, source: Option<&str>, maximum: usize, n: Ghost<nat>) -> (r: bool)
        requires
            self.wf(n@),
        ensures
            r == (source matches Some(s) && self@.admits(s@, maximum as nat)),
    {
        proof {
            self.sources.lemma_positions();
            assert(self@.sources.dom() =~= self.sources@.dom());
        }
        match source {
            Some(s) => self.sources.contains_key(s) || self.sources.len() < maximum,
            None => false,
        }
    }

    pub(crate) fn track_source_ip(
        &mut self,
        source: Option<&str>,
        status: Option<u16>,
        path: Option<&str>,
        limits: &ConcentrationLimits,
        o: Ghost<Observation>,
        n: Ghost<nat>,
    )
        requires
            old(self).wf(n@),
            n@ < u64::MAX,
            o@.path == crate::event::opt_str(path),
            o@.source == crate::event::opt_str(source),
            o@.status == status,
        ensures
            final(self).wf(n@ + 1),
            final(self)@ == old(self)@.observed(o@, *limits),
    {
        let ghost before = *self;
        proof {
            self.sources.lemma_positions();
            assert(self@.sources.dom() =~= self.sources@.dom());
        }
        let key = match source {
            Some(key) => key,
            None => {
                self.missing = self.missing + 1;
                return ;
            },
        };
        if let Some(item) = self.sources.get_mut(key) {
            proof {
                lemma_source_sums(before@.sources, key@, before@.sources[key@]);
            }
            item.observe(path, status, limits, o);
            proof {
                let v = self.sources@[key@];
                lemma_source_sums(before@.sources, key@, v@);
                assert(source_models(self.sources@) =~= source_models(before.sources@).insert(
                    key@,
                    v@,
                ));
            }
            return ;
        }
        if self.sources.len() >= limits.max_source_ips {
            self.beyond = self.beyond + 1;
            return ;
        }
        let mut item = SourceAccumulator::new();
        item.observe(path, status, limits, o);
        let ghost v = item;
        self.sources.insert(key.to_owned(), item);
        proof {
            lemma_source_sums(before@.sources, key@, v@);
            assert(source_models(self.sources@) =~= source_models(before.sources@).insert(
                key@,
                v@,
            ));
        }
    }
}

pub open spec fn pair_models(m: Map<Seq<char>, TextMap<u64>>) -> Map<
    Seq<char>,
    Map<Seq<char>, u64>,
> {
    m.map_values(|paths: TextMap<u64>| paths@)
}

/// How many paths are kept for each source.
pub open spec fn pair_sizes(m: Map<Seq<char>, Map<Seq<char>, u64>>) -> Map<Seq<char>, nat> {
    m.map_values(|paths: Map<Seq<char>, u64>| paths.dom().len())
}

/// How often each source requested each path, within a bound on the number of pairs.
#[derive(Clone, Debug)]
pub struct PairBook {
    pub pairs: TextMap<TextMap<u64>>,
    pub count: usize,
    pub beyond: u64,
    /// The sources with a pair that found no place.
    pub incomplete: TextSet,
}

pub struct PairBookModel {
    pub pairs: Map<Seq<char>, Map<Seq<char>, u64>>,
    pub count: nat,
    pub beyond: nat,
    pub incomplete: Set<Seq<char>>,
}

impl View for PairBook {
    type V = PairBookModel;

    open spec fn view(&self) -> PairBookModel {
        PairBookModel {
            pairs: pair_models(self.pairs@),
            count: self.count as nat,
            beyond: self.beyond as nat,
            incomplete: self.incomplete@,
        }
    }
}

impl PairBookModel {
    pub open spec fn none() -> PairBookModel {
        PairBookModel { pairs: Map::empty(), count: 0, beyond: 0, incomplete: Set::empty() }
    }

    /// The paths kept for a source.
    pub open spec fn paths_of(self, source: Seq<char>) -> Map<Seq<char>, u64> {
        if self.pairs.dom().contains(source) {
            self.pairs[source]
        } else {
            Map::empty()
        }
    }

    pub open spec fn paired(self, source: Seq<char>, path: Seq<char>, maximum: nat)
        -> PairBookModel {
        let paths = self.paths_of(source);
        if paths.dom().contains(path) {
            PairBookModel {
                pairs: self.pairs.insert(source, paths.insert(path, (paths[path] + 1) as u64)),
                ..self
            }
        } else if self.count < maximum {
            PairBookModel {
                pairs: self.pairs.insert(source, paths.insert(path, 1)),
                count: self.count + 1,
                ..self
            }
        } else {
            PairBookModel {
                beyond: self.beyond + 1,
                incomplete: self.incomplete.insert(source),
                ..self
            }
        }
    }
}

impl PairBook {
    pub open spec fn wf(&self, n: nat) -> bool {
        &&& self.pairs.wf()
        &&& self.incomplete.wf()
        &&& forall|k: Seq<char>| #[trigger] self.pairs@.dom().contains(k) ==> self.pairs@[k].wf()
        &&& forall|k: Seq<char>, p: Seq<char>|
            self.pairs@.dom().contains(k) && #[trigger] self.pairs@[k]@.dom().contains(p)
                ==> self.pairs@[k]@[p] <= n
        &&& self.beyond <= n
        &&& map_sum(pair_sizes(self@.pairs)) == self.count
    }

    pub fn new() -> (r: Self)
        ensures
            r.wf(0),
            r@ == PairBookModel::none(),
    {
        let r = PairBook { pairs: TextMap::new(), count: 0, beyond: 0, incomplete: TextSet::new() };
        proof {
            assert(pair_models(r.pairs@) =~= Map::<Seq<char>, Map<Seq<char>, u64>>::empty());
            assert(pair_sizes(r@.pairs) =~= Map::<Seq<char>, nat>::empty());
            lemma_sum_empty::<Seq<char>>();
        }
        r
    }

    pub(crate) fn track_source_path_pair(
        &mut self,
        source: &str,
        path: &str,
        maximum: usize,
        n: Ghost<nat>,
    )
        requires
            old(self).wf(n@),
            n@ < u64::MAX,
        ensures
            final(self).wf(n@ + 1),
            final(self)@ == old(self)@.paired(source@, path@, maximum as nat),
    {
        let ghost before = *self;
        proof {
            self.pairs.lemma_positions();
            assert(self@.pairs.dom() =~= self.pairs@.dom());
            assert(pair_sizes(self@.pairs).dom() =~= self.pairs@.dom());
        }
        let has_room = self.count < maximum;
        if let Some(paths) = self.pairs.get_mut(source) {
            let ghost inner = *paths;
            proof {
                paths.lemma_positions();
            }
            let known = match paths.get(path) {
                Some(count) => Some(*count),
                None => None,
            };
            if let Some(count) = known {
                paths.insert(path.to_owned(), count + 1);
                proof {
                    let after = self.pairs@[source@];
                    assert(after@.dom() =~= inner@.dom());
                    lemma_sum_insert(pair_sizes(before@.pairs), source@, inner@.dom().len());
                    assert(pair_models(self.pairs@) =~= before@.pairs.insert(source@, after@));
                    assert(pair_sizes(self@.pairs) =~= pair_sizes(before@.pairs).insert(
                        source@,
                        inner@.dom().len(),
                    ));
                }
                return ;
            }
            if has_room {
                paths.insert(path.to_owned(), 1);
                self.count = self.count + 1;
                proof {
                    let after = self.pairs@[source@];
                    assert(after@.dom() =~= inner@.dom().insert(path@));
                    lemma_sum_insert(pair_sizes(before@.pairs), source@, after@.dom().len());
                    assert(pair_models(self.pairs@) =~= before@.pairs.insert(source@, after@));
                    assert(pair_sizes(self@.pairs) =~= pair_sizes(before@.pairs).insert(
                        source@,
                        after@.dom().len(),
                    ));
                }
                return ;
            }
        } else if has_room {
            let mut paths: TextMap<u64> = TextMap::new();
            paths.insert(path.to_owned(), 1);
            let ghost after = paths;
            self.pairs.insert(source.to_owned(), paths);
            self.count = self.count + 1;
            proof {
                assert(after@.dom() =~= Set::<Seq<char>>::empty().insert(path@));
                lemma_sum_insert(pair_sizes(before@.pairs), source@, after@.dom().len());
                assert(pair_models(self.pairs@) =~= before@.pairs.insert(source@, after@));
                assert(pair_sizes(self@.pairs) =~= pair_sizes(before@.pairs).insert(
                    source@,
                    after@.dom().len(),
                ));
            }
            return ;
        }
        proof {
            assert(self.pairs@ =~= before.pairs@);
        }
        self.beyond = self.beyond + 1;
        if !self.incomplete.contains(source) {
            self.incomplete.insert(source.to_owned());
        } else {
            assert(before.incomplete@.insert(source@) =~= before.incomplete@);
        }
    }
}

/// Requests over time, with their outcomes: by minute and in each configured window.
#[derive(Clone, Debug)]
pub struct Clock {
    pub minutes: OutcomeWindow,
    pub windows: Vec<OutcomeWindow>,
    pub without_timestamp: u64,
}

pub struct ClockModel {
    pub minutes: OutcomeWindowModel,
    pub windows: Seq<OutcomeWindowModel>,
    pub without_timestamp: nat,
}

pub open spec fn window_models(windows: Seq<OutcomeWindow>) -> Seq<OutcomeWindowModel> {
    windows.map_values(|w: OutcomeWindow| w@)
}

impl View for Clock {
    type V = ClockModel;

    open spec fn view(&self) -> ClockModel {
        ClockModel {
            minutes: self.minutes@,
            windows: window_models(self.windows@),
            without_timestamp: self.without_timestamp as nat,
        }
    }
}

impl ClockModel {
    pub open spec fn none(widths: Seq<u64>) -> ClockModel {
        ClockModel {
            minutes: OutcomeWindowModel::none(60),
            windows: widths.map_values(|w: u64| OutcomeWindowModel::none(w)),
            without_timestamp: 0,
        }
    }

    pub open spec fn observed(self, o: Observation, maximum: nat) -> ClockModel {
        match o.time {
            None => ClockModel { without_timestamp: self.without_timestamp + 1, ..self },
            Some(t) => ClockModel {
                minutes: self.minutes.counting(maximum, t.seconds, o.status),
                windows: self.windows.map_values(
                    |w: OutcomeWindowModel| w.counting(maximum, t.seconds, o.status),
                ),
                ..self
            },
        }
    }
}

impl Clock {
    pub open spec fn wf(&self, n: nat) -> bool {
        &&& self.minutes.wf()
        &&& self.minutes@.within(n)
        &&& forall|i: int|
            0 <= i < self.windows@.len() ==> (#[trigger] self.windows@[i]).wf()
                && self.windows@[i]@.within(n)
        &&& self.without_timestamp <= n
    }

    pub fn new(widths: &Vec<u64>) -> (r: Self)
        requires
            forall|i: int| 0 <= i < widths@.len() ==> 0 < #[trigger] widths@[i] <= i64::MAX,
        ensures
            r.wf(0),
            r@ == ClockModel::none(widths@),
    {
        let mut windows: Vec<OutcomeWindow> = Vec::new();
        let mut i: usize = 0;
        while i < widths.len()
            invariant
                i <= widths@.len(),
                windows@.len() == i,
                forall|j: int| 0 <= j < widths@.len() ==> 0 < #[trigger] widths@[j] <= i64::MAX,
                forall|j: int|
                    0 <= j < i ==> (#[trigger] windows@[j]).wf() && windows@[j]@.within(0)
                        && windows@[j]@ == OutcomeWindowModel::none(widths@[j]),
            decreases widths.len() - i,
        {
            windows.push(OutcomeWindow::new(widths[i]));
            i = i + 1;
        }
        assert(window_models(windows@) =~= widths@.map_values(
            |w: u64| OutcomeWindowModel::none(w),
        ));
        Clock { minutes: OutcomeWindow::new(60), windows, without_timestamp: 0 }
    }

    pub(crate) fn observe_minute(
        &mut self,
        time: Option<Timestamp>,
        status: Option<u16>,
        maximum: usize,
        o: Ghost<Observation>,
        n: Ghost<nat>,
    )
        requires
            old(self).wf(n@),
            n@ < u64::MAX,
            o@.time == time,
            o@.status == status,
        ensures
            final(self).wf(n@ + 1),
            final(self)@ == old(self)@.observed(o@, maximum as nat),
    {
        let ghost before = *self;
        let instant = match time {
            Some(instant) => instant,
            None => {
                self.without_timestamp = self.without_timestamp + 1;
                assert(self.minutes@.within(n@ + 1));
                assert(self.wf(n@ + 1));
                return ;
            },
        };
        assert(self.minutes@.within((u64::MAX - 1) as nat));
        self.minutes.track(maximum, instant.seconds, status);
        let count = self.windows.len();
        let mut i: usize = 0;
        while i < count
            invariant
                before.wf(n@),
                n@ < u64::MAX,
                i <= count,
                count == self.windows@.len(),
                count == before.windows@.len(),
                self.minutes.wf(),
                self.minutes@.within(n@ + 1),
                self.minutes@ == before.minutes@.counting(maximum as nat, instant.seconds, status),
                self.without_timestamp == before.without_timestamp,
                forall|j: int|
                    0 <= j < i ==> (#[trigger] self.windows@[j]).wf() && self.windows@[j]@.within(
                        n@ + 1,
                    ) && self.windows@[j]@ == before.windows@[j]@.counting(
                        maximum as nat,
                        instant.seconds,
                        status,
                    ),
                forall|j: int| i <= j < count ==> #[trigger] self.windows@[j] == before.windows@[j],
            decreases count - i,
        {
            assert(before.windows@[i as int].wf() && before.windows@[i as int]@.within(n@));
            assert(before.windows@[i as int]@.within((u64::MAX - 1) as nat));
            let window = &mut self.windows[i];
            window.track(maximum, instant.seconds, status);
            i = i + 1;
        }
        assert(self@.windows =~= before@.observed(o@, maximum as nat).windows);
    }
}

} // verus!
