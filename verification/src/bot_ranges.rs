//! Comparison of self-declared crawlers with frozen ranges that their operators published.
//!
//! The comparison is a labelled observation only. Published ranges can be incomplete or stale,
//! intermediaries can change the observed peer, and any client can set a user agent.

use crate::digest::{digest, digest_text};
use crate::event::{debug_display, debug_text, WebEvent};
use crate::json::{field_of, item_models, json_from_bytes, read_json_bytes, Json, JsonModel};
use crate::network::{network_display, parsed_address, parsed_network, Address, Network};
use crate::numbers::{is_ranking, rank, Ratio};
use crate::ordered::{
    find_place_after, lemma_place_after, nondecreasing, ordered_texts, place_after, TextMap,
    TextSet,
};
use crate::sums::{lemma_sum_empty, lemma_sum_insert, lemma_sum_remove, map_sum};
use crate::text::{
    ascii_lowercase, compare_text, contains, contains_text, lower, same_text, text_before,
    text_order_is_total, texts, TextOrder,
};
use vstd::prelude::*;
use vstd::string::*;

verus! {

broadcast use vstd::string::group_string_axioms;

pub const BOT_RANGE_REPORT_KIND: &'static str = "PUBLISHED_BOT_RANGE_SNAPSHOT";

pub const BOT_RANGE_PRIVATE_REPORT_KIND: &'static str = "BOT_RANGE_OBSERVATIONS_PRIVATE";

pub const BOT_RANGE_SAFETY_NOTE: &'static str =
    "A User-Agent whose observed peer is outside the named operator's published ranges is only outside that frozen range snapshot. Published ranges can be incomplete or stale, an intermediary can rewrite the peer address, and any client can set a User-Agent. This is a labeled observation for review, not a determination of impersonation, attack, abuse, compromise, vulnerability, or attacker identity.";

/// A public source of ranges. Several may contribute to one operator.
#[derive(Clone, Debug)]
pub struct BotRangeSourceDefinition {
    pub operator_id: String,
    pub operator_name: String,
    pub user_agent_patterns: Vec<String>,
    pub url: String,
}

#[derive(Clone, Debug)]
pub struct BotRangeSourceProvenance {
    pub url: String,
    pub retrieved_at: String,
    pub sha256: String,
    pub records: usize,
    pub invalid_records_excluded: usize,
}

#[derive(Clone, Debug)]
pub struct BotOperatorSnapshot {
    pub operator_id: String,
    pub operator_name: String,
    pub user_agent_patterns: Vec<String>,
    pub cidrs: Vec<String>,
    pub sources: Vec<BotRangeSourceProvenance>,
}

#[derive(Clone, Debug)]
pub struct BotRangeSnapshot {
    pub report_kind: String,
    pub generated_at: String,
    pub safety_note: String,
    pub operators: Vec<BotOperatorSnapshot>,
}

/// Why ranges were refused.
#[derive(Clone, Debug)]
pub enum BotRangeError {
    UnsupportedKind(String),
    InvalidRange { range: String, operator_id: String },
    NotDownloaded(String),
    NotJson,
    NoPrefixes,
}

impl BotRangeError {
    pub open spec fn text(self) -> Seq<char> {
        match self {
            BotRangeError::UnsupportedKind(kind) => "unsupported bot-range snapshot kind "@
                + debug_display(kind@) + "; expected "@ + BOT_RANGE_REPORT_KIND@,
            BotRangeError::InvalidRange { range, operator_id } => "invalid published range "@
                + debug_display(range@) + " for operator "@ + operator_id@,
            BotRangeError::NotDownloaded(url) => "no downloaded content for "@ + url@,
            BotRangeError::NotJson => "published range content is not JSON"@,
            BotRangeError::NoPrefixes => "published range JSON has no prefixes array"@,
        }
    }

    pub fn message(&self) -> (r: String)
        ensures
            r@ == self.text(),
    {
        match self {
            BotRangeError::UnsupportedKind(kind) => {
                let mut r = "unsupported bot-range snapshot kind ".to_owned();
                r.append(debug_text(kind.as_str()).as_str());
                r.append("; expected ");
                r.append(BOT_RANGE_REPORT_KIND);
                r
            },
            BotRangeError::InvalidRange { range, operator_id } => {
                let mut r = "invalid published range ".to_owned();
                r.append(debug_text(range.as_str()).as_str());
                r.append(" for operator ");
                r.append(operator_id.as_str());
                r
            },
            BotRangeError::NotDownloaded(url) => {
                let mut r = "no downloaded content for ".to_owned();
                r.append(url.as_str());
                r
            },
            BotRangeError::NotJson => "published range content is not JSON".to_owned(),
            BotRangeError::NoPrefixes => "published range JSON has no prefixes array".to_owned(),
        }
    }
}

/// An operator with its ranges read.
#[derive(Clone, Debug)]
struct CompiledOperator {
    operator_id: String,
    operator_name: String,
    user_agent_patterns: Vec<String>,
    ranges: Vec<Network>,
}

pub struct OperatorRanges {
    pub id: Seq<char>,
    pub name: Seq<char>,
    pub patterns: Seq<Seq<char>>,
    pub ranges: Seq<Network>,
}

impl CompiledOperator {
    spec fn model(&self) -> OperatorRanges {
        OperatorRanges {
            id: self.operator_id@,
            name: self.operator_name@,
            patterns: texts(self.user_agent_patterns@),
            ranges: self.ranges@,
        }
    }
}

/// Frozen ranges. Nothing is looked up elsewhere.
#[derive(Clone, Debug)]
pub struct BotRangeDatabase {
    operators: Vec<CompiledOperator>,
}

/// The ranges of a list of texts; none where one of them is no network.
pub open spec fn ranges_of(cidrs: Seq<Seq<char>>) -> Option<Seq<Network>>
    decreases cidrs.len(),
{
    if cidrs.len() == 0 {
        Some(seq![])
    } else {
        match (ranges_of(cidrs.drop_last()), parsed_network(cidrs.last())) {
            (Some(before), Some(n)) => Some(before.push(n)),
            _ => None,
        }
    }
}

pub open spec fn well_formed(list: Seq<Network>) -> bool {
    forall|i: int| 0 <= i < list.len() ==> (#[trigger] list[i]).wf()
}

proof fn lemma_ranges_prefix(cidrs: Seq<Seq<char>>, n: int)
    requires
        0 <= n <= cidrs.len(),
        ranges_of(cidrs.take(n)) is None,
    ensures
        ranges_of(cidrs) is None,
    decreases cidrs.len() - n,
{
    if n == cidrs.len() {
        assert(cidrs.take(n) =~= cidrs);
    } else {
        assert(cidrs.take(n + 1).drop_last() =~= cidrs.take(n));
        lemma_ranges_prefix(cidrs, n + 1);
    }
}

/// Whether a text is the first of a list that is no network.
pub open spec fn first_bad(cidrs: Seq<Seq<char>>, text: Seq<char>) -> bool {
    exists|i: int|
        0 <= i < cidrs.len() && #[trigger] cidrs[i] == text && parsed_network(text) is None
            && ranges_of(cidrs.take(i)) is Some
}

fn read_ranges(cidrs: &Vec<String>) -> (r: Result<Vec<Network>, String>)
    ensures
        match r {
            Ok(list) => ranges_of(texts(cidrs@)) == Some(list@) && well_formed(list@),
            Err(text) => ranges_of(texts(cidrs@)) is None && first_bad(texts(cidrs@), text@),
        },
{
    let ghost all = texts(cidrs@);
    let mut list: Vec<Network> = Vec::new();
    let mut i: usize = 0;
    assert(list@ =~= Seq::<Network>::empty());
    while i < cidrs.len()
        invariant
            all == texts(cidrs@),
            i <= cidrs@.len(),
            ranges_of(all.take(i as int)) == Some(list@),
            well_formed(list@),
        decreases cidrs.len() - i,
    {
        proof {
            assert(all[i as int] == cidrs@[i as int]@);
            assert(all.take(i + 1).drop_last() =~= all.take(i as int));
            assert(all.take(i + 1).last() == all[i as int]);
        }
        match Network::parse(cidrs[i].as_str()) {
            Some(n) => list.push(n),
            None => {
                proof {
                    lemma_ranges_prefix(all, i + 1);
                    assert(all[i as int] == cidrs@[i as int]@);
                }
                return Err(cidrs[i].clone());
            },
        }
        i = i + 1;
    }
    assert(all.take(i as int) =~= all);
    Ok(list)
}

pub open spec fn operator_ranges(o: BotOperatorSnapshot, ranges: Seq<Network>) -> OperatorRanges {
    OperatorRanges {
        id: o.operator_id@,
        name: o.operator_name@,
        patterns: texts(o.user_agent_patterns@),
        ranges,
    }
}

/// Whether operators are those of a snapshot, with their ranges read.
pub open spec fn are_compiled(list: Seq<OperatorRanges>, operators: Seq<BotOperatorSnapshot>) -> bool {
    &&& list.len() == operators.len()
    &&& forall|i: int|
        0 <= i < operators.len() ==> ranges_of(texts(operators[i].cidrs@)) == Some(
            (#[trigger] list[i]).ranges,
        ) && list[i] == operator_ranges(operators[i], list[i].ranges)
}

pub open spec fn readable(o: BotOperatorSnapshot) -> bool {
    ranges_of(texts(o.cidrs@)) is Some
}

/// What has been observed of an operator.
#[derive(Clone, Debug)]
struct OperatorAccumulator {
    operator_name: String,
    declared_requests: u64,
    inside_sources: TextSet,
    inside_requests: u64,
    outside_sources: TextMap<u64>,
    outside_requests: u64,
    unavailable_requests: u64,
}

pub struct Observed {
    pub name: Seq<char>,
    pub declared: nat,
    pub inside_sources: Set<Seq<char>>,
    pub inside: nat,
    pub outside_sources: Map<Seq<char>, nat>,
    pub outside: nat,
    pub unavailable: nat,
}

/// Where an observed peer stands.
pub enum Peer {
    Unavailable,
    Inside(Seq<char>),
    Outside(Seq<char>),
}

pub open spec fn peer_of(e: WebEvent, ranges: Seq<Network>) -> Peer {
    match e.source_ip {
        None => Peer::Unavailable,
        Some(ip) => match parsed_address(ip@) {
            None => Peer::Unavailable,
            Some(a) => if exists|i: int| 0 <= i < ranges.len() && (#[trigger] ranges[i]).holds(a) {
                Peer::Inside(ip@)
            } else {
                Peer::Outside(ip@)
            },
        },
    }
}

impl Observed {
    pub open spec fn none(name: Seq<char>) -> Observed {
        Observed {
            name,
            declared: 0,
            inside_sources: Set::empty(),
            inside: 0,
            outside_sources: Map::empty(),
            outside: 0,
            unavailable: 0,
        }
    }

    /// Every request of a declared crawler is inside, outside or without an address, and every
    /// one outside belongs to a source.
    pub open spec fn wf(self) -> bool {
        &&& self.declared == self.inside + self.outside + self.unavailable
        &&& self.outside_sources.dom().finite()
        &&& self.outside == map_sum(self.outside_sources)
    }

    pub open spec fn with(self, peer: Peer) -> Observed {
        match peer {
            Peer::Unavailable => Observed {
                declared: self.declared + 1,
                unavailable: self.unavailable + 1,
                ..self
            },
            Peer::Inside(ip) => Observed {
                declared: self.declared + 1,
                inside: self.inside + 1,
                inside_sources: self.inside_sources.insert(ip),
                ..self
            },
            Peer::Outside(ip) => Observed {
                declared: self.declared + 1,
                outside: self.outside + 1,
                outside_sources: self.outside_sources.insert(
                    ip,
                    (if self.outside_sources.dom().contains(ip) {
                        self.outside_sources[ip]
                    } else {
                        0
                    }) + 1,
                ),
                ..self
            },
        }
    }
}

pub open spec fn plain_counts(m: Map<Seq<char>, u64>) -> Map<Seq<char>, nat> {
    m.map_values(|n: u64| n as nat)
}

impl OperatorAccumulator {
    spec fn model(&self) -> Observed {
        Observed {
            name: self.operator_name@,
            declared: self.declared_requests as nat,
            inside_sources: self.inside_sources@,
            inside: self.inside_requests as nat,
            outside_sources: plain_counts(self.outside_sources@),
            outside: self.outside_requests as nat,
            unavailable: self.unavailable_requests as nat,
        }
    }

    spec fn wf(&self) -> bool {
        &&& self.inside_sources.wf()
        &&& self.outside_sources.wf()
        &&& self.model().wf()
    }

    fn new(name: &str) -> (r: Self)
        ensures
            r.wf(),
            r.model() == Observed::none(name@),
    {
        let r = OperatorAccumulator {
            operator_name: name.to_owned(),
            declared_requests: 0,
            inside_sources: TextSet::new(),
            inside_requests: 0,
            outside_sources: TextMap::new(),
            outside_requests: 0,
            unavailable_requests: 0,
        };
        proof {
            assert(plain_counts(r.outside_sources@) =~= Map::<Seq<char>, nat>::empty());
            lemma_sum_empty::<Seq<char>>();
        }
        r
    }

    fn note_unavailable(&mut self)
        requires
            old(self).wf(),
            old(self).declared_requests < u64::MAX,
        ensures
            final(self).wf(),
            final(self).model() == old(self).model().with(Peer::Unavailable),
    {
        self.declared_requests = self.declared_requests + 1;
        self.unavailable_requests = self.unavailable_requests + 1;
    }

    fn note_inside(&mut self, ip: &str)
        requires
            old(self).wf(),
            old(self).declared_requests < u64::MAX,
        ensures
            final(self).wf(),
            final(self).model() == old(self).model().with(Peer::Inside(ip@)),
    {
        self.declared_requests = self.declared_requests + 1;
        self.inside_requests = self.inside_requests + 1;
        self.inside_sources.insert(ip.to_owned());
    }

    fn note_outside(&mut self, ip: &str)
        requires
            old(self).wf(),
            old(self).declared_requests < u64::MAX,
        ensures
            final(self).wf(),
            final(self).model() == old(self).model().with(Peer::Outside(ip@)),
    {
        let ghost before = self.model();
        let ghost counts = before.outside_sources;
        let known: u64 = match self.outside_sources.get(ip) {
            Some(n) => *n,
            None => 0,
        };
        proof {
            if counts.dom().contains(ip@) {
                lemma_sum_remove(counts, ip@);
            }
            lemma_sum_insert(counts, ip@, (known + 1) as nat);
        }
        self.declared_requests = self.declared_requests + 1;
        self.outside_requests = self.outside_requests + 1;
        let ghost raw = self.outside_sources@;
        self.outside_sources.insert(ip.to_owned(), known + 1);
        assert(plain_counts(self.outside_sources@) =~= counts.insert(ip@, (known + 1) as nat)) by {
            assert(self.outside_sources@ =~= raw.insert(ip@, (known + 1) as u64));
        }
    }
}

/// Whether a user agent declares an operator, whatever the case of its letters.
pub open spec fn declares(agent: Seq<char>, patterns: Seq<Seq<char>>) -> bool {
    exists|i: int|
        0 <= i < patterns.len() && contains_text(lower(agent), lower(#[trigger] patterns[i]))
}

fn is_declared(agent: &str, patterns: &Vec<String>) -> (r: bool)
    ensures
        r == declares(agent@, texts(patterns@)),
{
    let wanted = ascii_lowercase(agent);
    let mut i: usize = 0;
    while i < patterns.len()
        invariant
            wanted@ == lower(agent@),
            i <= patterns@.len(),
            forall|j: int|
                0 <= j < i ==> !contains_text(lower(agent@), lower(#[trigger] texts(patterns@)[j])),
        decreases patterns.len() - i,
    {
        assert(texts(patterns@)[i as int] == patterns@[i as int]@);
        if contains(wanted.as_str(), ascii_lowercase(patterns[i].as_str()).as_str()) {
            return true;
        }
        i = i + 1;
    }
    false
}

/// What has been observed of each operator.
pub type ObservedModel = Map<Seq<char>, Observed>;

/// What has been observed with one more event that declares an operator. The operator is named as
/// when it was first seen.
pub open spec fn with_operator(m: ObservedModel, o: OperatorRanges, e: WebEvent) -> ObservedModel {
    let before = if m.dom().contains(o.id) {
        m[o.id]
    } else {
        Observed::none(o.name)
    };
    m.insert(o.id, before.with(peer_of(e, o.ranges)))
}

/// What has been observed with one more event, on the first `n` operators.
pub open spec fn with_event(
    m: ObservedModel,
    operators: Seq<OperatorRanges>,
    e: WebEvent,
    n: nat,
) -> ObservedModel
    decreases n,
{
    if n == 0 {
        m
    } else {
        let before = with_event(m, operators, e, (n - 1) as nat);
        if e.user_agent is Some && declares(
            e.user_agent.unwrap()@,
            operators[n - 1].patterns,
        ) {
            with_operator(before, operators[n - 1], e)
        } else {
            before
        }
    }
}

/// The observations on all operators.
#[derive(Debug)]
pub struct BotRangeAccumulator {
    operators: TextMap<OperatorAccumulator>,
}

impl View for BotRangeAccumulator {
    type V = ObservedModel;

    closed spec fn view(&self) -> ObservedModel {
        self.operators@.map_values(|a: OperatorAccumulator| a.model())
    }
}

impl Default for BotRangeAccumulator {
    fn default() -> (r: Self)
        ensures
            r.wf(),
            r@ == Map::<Seq<char>, Observed>::empty(),
    {
        let r = BotRangeAccumulator { operators: TextMap::new() };
        assert(r@ =~= Map::<Seq<char>, Observed>::empty());
        r
    }
}

/// Whether `n` more requests of each operator can be counted.
pub open spec fn has_room(m: ObservedModel, n: nat) -> bool {
    forall|id: Seq<char>| #[trigger] m.dom().contains(id) ==> m[id].declared + n <= u64::MAX
}

impl BotRangeDatabase {
    pub closed spec fn operators(&self) -> Seq<OperatorRanges> {
        self.operators@.map_values(|o: CompiledOperator| o.model())
    }

    pub closed spec fn wf(&self) -> bool {
        forall|i: int| 0 <= i < self.operators@.len() ==> well_formed((#[trigger] self.operators@[i]).ranges@)
    }

    /// Reads the ranges of a snapshot. A range that is no network is refused.
    pub fn from_snapshot(snapshot: BotRangeSnapshot) -> (r: Result<Self, BotRangeError>)
        ensures
            match r {
                Ok(database) => snapshot.report_kind@ == BOT_RANGE_REPORT_KIND@ && database.wf()
                    && are_compiled(database.operators(), snapshot.operators@),
                Err(BotRangeError::UnsupportedKind(kind)) => kind@ == snapshot.report_kind@ && kind@
                    != BOT_RANGE_REPORT_KIND@,
                Err(BotRangeError::InvalidRange { range, operator_id }) => snapshot.report_kind@
                    == BOT_RANGE_REPORT_KIND@ && exists|i: int|
                    0 <= i < snapshot.operators@.len() && operator_id@ == (
                    #[trigger] snapshot.operators@[i]).operator_id@ && first_bad(
                        texts(snapshot.operators@[i].cidrs@),
                        range@,
                    ) && forall|j: int| 0 <= j < i ==> readable(#[trigger] snapshot.operators@[j]),
                Err(_) => false,
            },
    {
        if !same_text(snapshot.report_kind.as_str(), BOT_RANGE_REPORT_KIND) {
            return Err(BotRangeError::UnsupportedKind(snapshot.report_kind));
        }
        let list = &snapshot.operators;
        let mut operators: Vec<CompiledOperator> = Vec::new();
        let mut i: usize = 0;
        while i < list.len()
            invariant
                list@ == snapshot.operators@,
                snapshot.report_kind@ == BOT_RANGE_REPORT_KIND@,
                i <= list@.len(),
                operators@.len() == i,
                forall|j: int| 0 <= j < i ==> readable(#[trigger] list@[j]),
                forall|j: int|
                    0 <= j < i ==> well_formed((#[trigger] operators@[j]).ranges@) && ranges_of(
                        texts(list@[j].cidrs@),
                    ) == Some(operators@[j].ranges@) && operators@[j].model() == operator_ranges(
                        list@[j],
                        operators@[j].ranges@,
                    ),
            decreases list.len() - i,
        {
            let operator = &list[i];
            let ranges = match read_ranges(&operator.cidrs) {
                Ok(ranges) => ranges,
                Err(range) => {
                    assert(operator == snapshot.operators@[i as int]);
                    return Err(
                        BotRangeError::InvalidRange {
                            range,
                            operator_id: operator.operator_id.clone(),
                        },
                    );
                },
            };
            operators.push(
                CompiledOperator {
                    operator_id: operator.operator_id.clone(),
                    operator_name: operator.operator_name.clone(),
                    user_agent_patterns: crate::event::copy_texts(&operator.user_agent_patterns),
                    ranges,
                },
            );
            i = i + 1;
        }
        let r = BotRangeDatabase { operators };
        proof {
            assert forall|j: int| 0 <= j < list@.len() implies ranges_of(texts(list@[j].cidrs@))
                == Some((#[trigger] r.operators()[j]).ranges) && r.operators()[j]
                == operator_ranges(list@[j], r.operators()[j].ranges) by {
                assert(r.operators()[j] == operators@[j].model());
            }
        }
        Ok(r)
    }

    /// Counts an event for every operator that its user agent declares.
    pub fn observe(&self, event: &WebEvent, accumulator: &mut BotRangeAccumulator)
        requires
            self.wf(),
            old(accumulator).wf(),
            has_room(old(accumulator)@, self.operators().len()),
        ensures
            final(accumulator).wf(),
            final(accumulator)@ == with_event(
                old(accumulator)@,
                self.operators(),
                *event,
                self.operators().len(),
            ),
    {
        let ghost start = accumulator@;
        let ghost all = self.operators();
        let agent = match &event.user_agent {
            Some(agent) => agent,
            None => {
                proof {
                    lemma_no_agent(start, all, *event, all.len());
                }
                return;
            },
        };
        let mut i: usize = 0;
        while i < self.operators.len()
            invariant
                self.wf(),
                all == self.operators(),
                all.len() == self.operators@.len(),
                event.user_agent == Some(*agent),
                i <= self.operators@.len(),
                accumulator.wf(),
                accumulator@ == with_event(start, all, *event, i as nat),
                has_room(accumulator@, (all.len() - i) as nat),
            decreases self.operators.len() - i,
        {
            let operator = &self.operators[i];
            assert(all[i as int] == operator.model());
            assert(well_formed(operator.ranges@));
            if is_declared(agent.as_str(), &operator.user_agent_patterns) {
                accumulator.note(operator, event);
            }
            i = i + 1;
        }
    }
}

proof fn lemma_no_agent(m: ObservedModel, operators: Seq<OperatorRanges>, e: WebEvent, n: nat)
    requires
        e.user_agent is None,
    ensures
        with_event(m, operators, e, n) == m,
    decreases n,
{
    if n > 0 {
        lemma_no_agent(m, operators, e, (n - 1) as nat);
    }
}

fn lies_inside(address: &Address, ranges: &Vec<Network>) -> (r: bool)
    requires
        address.wf(),
        well_formed(ranges@),
    ensures
        r == exists|i: int| 0 <= i < ranges@.len() && (#[trigger] ranges@[i]).holds(*address),
{
    let mut i: usize = 0;
    while i < ranges.len()
        invariant
            address.wf(),
            well_formed(ranges@),
            i <= ranges@.len(),
            forall|j: int| 0 <= j < i ==> !(#[trigger] ranges@[j]).holds(*address),
        decreases ranges.len() - i,
    {
        if ranges[i].contains(address) {
            return true;
        }
        i = i + 1;
    }
    false
}

fn note_event(observed: &mut OperatorAccumulator, event: &WebEvent, ranges: &Vec<Network>)
    requires
        old(observed).wf(),
        old(observed).declared_requests < u64::MAX,
        well_formed(ranges@),
    ensures
        final(observed).wf(),
        final(observed).model() == old(observed).model().with(peer_of(*event, ranges@)),
{
    let ip = match &event.source_ip {
        Some(ip) => ip,
        None => {
            observed.note_unavailable();
            return;
        },
    };
    let address = match Address::parse(ip.as_str()) {
        Some(a) => a,
        None => {
            observed.note_unavailable();
            return;
        },
    };
    if lies_inside(&address, ranges) {
        observed.note_inside(ip.as_str());
    } else {
        observed.note_outside(ip.as_str());
    }
}

#[derive(Clone, Debug)]
pub struct BotOperatorObservation {
    pub operator_id: String,
    pub operator_name: String,
    pub declared_requests: u64,
    pub within_published_ranges_requests: u64,
    pub within_published_ranges_distinct_source_ips: usize,
    pub outside_published_ranges_requests: u64,
    pub outside_published_ranges_distinct_source_ips: usize,
    pub source_ip_unavailable_requests: u64,
    /// The share outside of the requests that could be placed; none where none could.
    pub outside_published_ranges_rate: Option<Ratio>,
}

#[derive(Clone, Debug)]
pub struct PrivateBotRangeSource {
    pub source_ip: String,
    pub requests: u64,
}

#[derive(Clone, Debug)]
pub struct PrivateBotOperatorObservation {
    pub summary: BotOperatorObservation,
    /// The most active source first; equally active ones in the order on texts.
    pub outside_published_range_sources: Vec<PrivateBotRangeSource>,
}

#[derive(Clone, Debug)]
pub struct PrivateBotRangeReport {
    pub report_kind: String,
    pub safety_note: String,
    pub operators: Vec<PrivateBotOperatorObservation>,
}

/// Whether a summary says what has been observed of an operator.
pub open spec fn is_observation(r: BotOperatorObservation, id: Seq<char>, m: Observed) -> bool {
    &&& r.operator_id@ == id
    &&& r.operator_name@ == m.name
    &&& r.declared_requests == m.declared
    &&& r.within_published_ranges_requests == m.inside
    &&& r.within_published_ranges_distinct_source_ips == m.inside_sources.len()
    &&& r.outside_published_ranges_requests == m.outside
    &&& r.outside_published_ranges_distinct_source_ips == m.outside_sources.dom().len()
    &&& r.source_ip_unavailable_requests == m.unavailable
    &&& r.outside_published_ranges_rate == (if m.inside + m.outside == 0 {
        None
    } else {
        Some(Ratio { numerator: m.outside as u64, denominator: (m.inside + m.outside) as u64 })
    })
}

/// The counts of a map in the order of its keys.
pub open spec fn ordered_counts(m: Map<Seq<char>, nat>) -> Seq<u64> {
    ordered_texts(m.dom()).map_values(|k: Seq<char>| m[k] as u64)
}

/// Whether sources stand in the order of their requests.
pub open spec fn are_ranked_sources(
    list: Seq<PrivateBotRangeSource>,
    m: Map<Seq<char>, nat>,
    order: Seq<usize>,
) -> bool {
    let keys = ordered_texts(m.dom());
    &&& is_ranking(order, ordered_counts(m))
    &&& list.len() == order.len()
    &&& forall|i: int|
        0 <= i < list.len() ==> (#[trigger] list[i]).source_ip@ == keys[order[i] as int]
            && list[i].requests == m[keys[order[i] as int]]
}

/// Whether a private report says what has been observed of an operator.
pub open spec fn is_private_observation(
    r: PrivateBotOperatorObservation,
    id: Seq<char>,
    m: Observed,
) -> bool {
    &&& is_observation(r.summary, id, m)
    &&& exists|order: Seq<usize>| #[trigger]
        are_ranked_sources(r.outside_published_range_sources@, m.outside_sources, order)
}

impl OperatorAccumulator {
    fn summary(&self, id: &str) -> (r: BotOperatorObservation)
        requires
            self.wf(),
        ensures
            is_observation(r, id@, self.model()),
    {
        proof {
            self.inside_sources.lemma_members();
            self.outside_sources.lemma_positions();
            assert(plain_counts(self.outside_sources@).dom() =~= self.outside_sources@.dom());
        }
        let placed: u64 = self.inside_requests + self.outside_requests;
        BotOperatorObservation {
            operator_id: id.to_owned(),
            operator_name: self.operator_name.clone(),
            declared_requests: self.declared_requests,
            within_published_ranges_requests: self.inside_requests,
            within_published_ranges_distinct_source_ips: self.inside_sources.len(),
            outside_published_ranges_requests: self.outside_requests,
            outside_published_ranges_distinct_source_ips: self.outside_sources.len(),
            source_ip_unavailable_requests: self.unavailable_requests,
            outside_published_ranges_rate: if placed == 0 {
                None
            } else {
                Some(Ratio { numerator: self.outside_requests, denominator: placed })
            },
        }
    }

    fn ranked_sources(&self) -> (r: Vec<PrivateBotRangeSource>)
        requires
            self.wf(),
        ensures
            exists|order: Seq<usize>| #[trigger]
                are_ranked_sources(r@, self.model().outside_sources, order),
    {
        let ghost m = self.model().outside_sources;
        proof {
            self.outside_sources.lemma_order();
            self.outside_sources.lemma_positions();
            assert(m.dom() =~= self.outside_sources@.dom());
        }
        let count = self.outside_sources.len();
        let ghost keys = ordered_texts(m.dom());
        let mut counts: Vec<u64> = Vec::new();
        let mut i: usize = 0;
        while i < count
            invariant
                self.wf(),
                m == self.model().outside_sources,
                keys == self.outside_sources.key_seq(),
                keys == ordered_texts(m.dom()),
                count == keys.len(),
                m.dom() == self.outside_sources@.dom(),
                i <= count,
                counts@ == ordered_counts(m).take(i as int),
            decreases count - i,
        {
            proof {
                self.outside_sources.lemma_positions();
                assert(ordered_counts(m).take(i + 1) =~= ordered_counts(m).take(i as int).push(
                    ordered_counts(m)[i as int],
                ));
                assert(m[keys[i as int]] == self.outside_sources@[keys[i as int]]);
            }
            counts.push(*self.outside_sources.value_at(i));
            i = i + 1;
        }
        assert(ordered_counts(m).take(i as int) =~= ordered_counts(m));
        let order = rank(&counts);
        let mut r: Vec<PrivateBotRangeSource> = Vec::new();
        let mut k: usize = 0;
        while k < order.len()
            invariant
                self.wf(),
                m == self.model().outside_sources,
                keys == self.outside_sources.key_seq(),
                keys == ordered_texts(m.dom()),
                m.dom() == self.outside_sources@.dom(),
                is_ranking(order@, ordered_counts(m)),
                ordered_counts(m).len() == keys.len(),
                k <= order@.len(),
                r@.len() == k,
                forall|i: int|
                    0 <= i < k ==> (#[trigger] r@[i]).source_ip@ == keys[order@[i] as int]
                        && r@[i].requests == m[keys[order@[i] as int]],
            decreases order.len() - k,
        {
            let place = order[k];
            proof {
                assert(order@[k as int] < ordered_counts(m).len());
                self.outside_sources.lemma_positions();
            }
            r.push(
                PrivateBotRangeSource {
                    source_ip: self.outside_sources.key_at(place).clone(),
                    requests: *self.outside_sources.value_at(place),
                },
            );
            k = k + 1;
        }
        assert(are_ranked_sources(r@, m, order@));
        r
    }
}

impl BotRangeAccumulator {
    pub closed spec fn wf(&self) -> bool {
        &&& self.operators.wf()
        &&& forall|id: Seq<char>| #[trigger]
            self.operators@.dom().contains(id) ==> self.operators@[id].wf()
    }

    /// Whether `more` requests of each operator can be counted.
    pub fn can_observe(&self, more: usize) -> (r: bool)
        requires
            self.wf(),
        ensures
            r == has_room(self@, more as nat),
    {
        proof {
            self.operators.lemma_positions();
            assert(self@.dom() =~= self.operators@.dom());
        }
        let count = self.operators.len();
        let mut i: usize = 0;
        while i < count
            invariant
                self.wf(),
                self@.dom() == self.operators@.dom(),
                count == self.operators.key_seq().len(),
                i <= count,
                forall|j: int|
                    0 <= j < i ==> self@[#[trigger] self.operators.key_seq()[j]].declared + more
                        <= u64::MAX,
            decreases count - i,
        {
            proof {
                self.operators.lemma_positions();
                assert(self@.dom().contains(self.operators.key_seq()[i as int]));
            }
            if self.operators.value_at(i).declared_requests > u64::MAX - more as u64 {
                return false;
            }
            i = i + 1;
        }
        proof {
            self.operators.lemma_positions();
            assert forall|id: Seq<char>| #[trigger] self@.dom().contains(id) implies self@[id].declared
                + more <= u64::MAX by {
                assert(self.operators.key_seq().to_set().contains(id));
                let j = self.operators.key_seq().index_of(id);
                assert(self.operators.key_seq()[j] == id);
            }
        }
        true
    }

    fn note(&mut self, operator: &CompiledOperator, event: &WebEvent)
        requires
            old(self).wf(),
            well_formed(operator.ranges@),
            has_room(old(self)@, 1),
        ensures
            final(self).wf(),
            final(self)@ == with_operator(old(self)@, operator.model(), *event),
            forall|n: nat| #[trigger]
                has_room(old(self)@, n + 1) && n + 1 <= u64::MAX ==> has_room(final(self)@, n),
    {
        let ghost before = self@;
        let ghost raw = self.operators@;
        let id = operator.operator_id.as_str();
        if !self.operators.contains_key(id) {
            self.operators.insert(
                operator.operator_id.clone(),
                OperatorAccumulator::new(operator.operator_name.as_str()),
            );
        }
        let ghost middle = self.operators@;
        assert(middle.dom().contains(id@));
        assert(before.dom() =~= raw.dom());
        if let Some(observed) = self.operators.get_mut(id) {
            note_event(observed, event, &operator.ranges);
        }
        proof {
            assert(self@ =~= with_operator(before, operator.model(), *event));
            assert forall|n: nat| #[trigger] has_room(before, n + 1) && n + 1
                <= u64::MAX implies has_room(self@, n) by {
                assert forall|k: Seq<char>| #[trigger] self@.dom().contains(k) implies self@[k].declared
                    + n <= u64::MAX by {
                    if before.dom().contains(k) {
                        assert(before[k].declared + n + 1 <= u64::MAX);
                    }
                }
            }
        }
    }

    /// The aggregate observations in the order of the operators, and apart from them the private
    /// report.
    pub fn reports(&self) -> (r: (Vec<BotOperatorObservation>, PrivateBotRangeReport))
        requires
            self.wf(),
        ensures
            ({
                let ids = ordered_texts(self@.dom());
                &&& r.0@.len() == ids.len()
                &&& forall|i: int|
                    0 <= i < ids.len() ==> is_observation(#[trigger] r.0@[i], ids[i], self@[ids[i]])
                &&& r.1.report_kind@ == BOT_RANGE_PRIVATE_REPORT_KIND@
                &&& r.1.safety_note@ == BOT_RANGE_SAFETY_NOTE@
                &&& r.1.operators@.len() == ids.len()
                &&& forall|i: int|
                    0 <= i < ids.len() ==> is_private_observation(
                        #[trigger] r.1.operators@[i],
                        ids[i],
                        self@[ids[i]],
                    )
            }),
    {
        proof {
            self.operators.lemma_order();
            self.operators.lemma_positions();
            assert(self@.dom() =~= self.operators@.dom());
        }
        let ghost ids = ordered_texts(self@.dom());
        let count = self.operators.len();
        let mut sanitized: Vec<BotOperatorObservation> = Vec::new();
        let mut private: Vec<PrivateBotOperatorObservation> = Vec::new();
        let mut i: usize = 0;
        while i < count
            invariant
                self.wf(),
                self@.dom() == self.operators@.dom(),
                ids == self.operators.key_seq(),
                count == ids.len(),
                i <= count,
                sanitized@.len() == i,
                private@.len() == i,
                forall|j: int|
                    0 <= j < i ==> is_observation(#[trigger] sanitized@[j], ids[j], self@[ids[j]]),
                forall|j: int|
                    0 <= j < i ==> is_private_observation(
                        #[trigger] private@[j],
                        ids[j],
                        self@[ids[j]],
                    ),
            decreases count - i,
        {
            proof {
                self.operators.lemma_positions();
                assert(self.operators@.dom().contains(ids[i as int]));
            }
            let id = self.operators.key_at(i).as_str();
            let observed = self.operators.value_at(i);
            assert(self@[ids[i as int]] == observed.model());
            sanitized.push(observed.summary(id));
            let sources = observed.ranked_sources();
            let ghost order = choose|order: Seq<usize>| #[trigger]
                are_ranked_sources(sources@, observed.model().outside_sources, order);
            let entry = PrivateBotOperatorObservation {
                summary: observed.summary(id),
                outside_published_range_sources: sources,
            };
            assert(are_ranked_sources(
                entry.outside_published_range_sources@,
                self@[ids[i as int]].outside_sources,
                order,
            ));
            private.push(entry);
            i = i + 1;
        }
        (
            sanitized,
            PrivateBotRangeReport {
                report_kind: BOT_RANGE_PRIVATE_REPORT_KIND.to_owned(),
                safety_note: BOT_RANGE_SAFETY_NOTE.to_owned(),
                operators: private,
            },
        )
    }
}

/// Every request that declares an operator is counted in one place.
pub proof fn declared_requests_are_accounted_for(m: Observed, peer: Peer)
    requires
        m.wf(),
    ensures
        m.with(peer).wf(),
        m.with(peer).declared == m.declared + 1,
{
    if let Peer::Outside(ip) = peer {
        let known = if m.outside_sources.dom().contains(ip) {
            m.outside_sources[ip]
        } else {
            0
        };
        lemma_sum_insert(m.outside_sources, ip, known + 1);
    }
}

/// The network that an entry of a published list names: the IPv4 prefix where there is one, else
/// the IPv6 prefix.
pub open spec fn entry_network(entry: JsonModel) -> Option<Network> {
    let value = match field_of(entry, "ipv4Prefix"@) {
        Some(v) => Some(v),
        None => field_of(entry, "ipv6Prefix"@),
    };
    match value {
        Some(JsonModel::Text(t)) => parsed_network(t),
        _ => None,
    }
}

/// What the entries of a published list come to.
pub struct PublishedModel {
    pub ranges: Set<Seq<char>>,
    pub invalid: nat,
}

pub open spec fn published(entries: Seq<JsonModel>) -> PublishedModel
    decreases entries.len(),
{
    if entries.len() == 0 {
        PublishedModel { ranges: Set::empty(), invalid: 0 }
    } else {
        let before = published(entries.drop_last());
        match entry_network(entries.last()) {
            Some(n) => PublishedModel {
                ranges: before.ranges.insert(network_display(n)),
                ..before
            },
            None => PublishedModel { invalid: before.invalid + 1, ..before },
        }
    }
}

/// The list of a published document.
pub open spec fn prefixes_of(document: JsonModel) -> Option<Seq<JsonModel>> {
    match field_of(document, "prefixes"@) {
        Some(JsonModel::List(items)) => Some(items),
        _ => None,
    }
}

/// The ranges of a published document, each once in the order on texts, and the number of entries
/// that were left out.
#[derive(Clone, Debug)]
pub struct ParsedPublishedRanges {
    pub ranges: Vec<String>,
    pub invalid_records: usize,
}

pub open spec fn is_parsed(r: ParsedPublishedRanges, m: PublishedModel) -> bool {
    texts(r.ranges@) == ordered_texts(m.ranges) && r.invalid_records == m.invalid
}

fn read_network(entry: &Json) -> (r: Option<Network>)
    ensures
        r == entry_network(entry@),
        r matches Some(n) ==> n.wf(),
{
    let value = match entry.get("ipv4Prefix") {
        Some(value) => Some(value),
        None => entry.get("ipv6Prefix"),
    };
    match value {
        Some(value) => match value.as_text() {
            Some(text) => Network::parse(text.as_str()),
            None => None,
        },
        None => None,
    }
}

/// The ranges of a published document.
pub fn ranges_of_document(document: &Json) -> (r: Option<ParsedPublishedRanges>)
    ensures
        match prefixes_of(document@) {
            Some(entries) => r matches Some(p) && is_parsed(p, published(entries)),
            None => r is None,
        },
{
    let entries = match document.get("prefixes") {
        Some(value) => match value.as_list() {
            Some(items) => items,
            None => {
                return None;
            },
        },
        None => {
            return None;
        },
    };
    let ghost all = item_models(entries@);
    let mut ranges = TextSet::new();
    let mut invalid: usize = 0;
    let mut i: usize = 0;
    while i < entries.len()
        invariant
            all == item_models(entries@),
            prefixes_of(document@) == Some(all),
            i <= entries@.len(),
            ranges.wf(),
            invalid <= i,
            published(all.take(i as int)) == (PublishedModel {
                ranges: ranges@,
                invalid: invalid as nat,
            }),
        decreases entries.len() - i,
    {
        proof {
            assert(all[i as int] == entries@[i as int]@);
            assert(all.take(i + 1).drop_last() =~= all.take(i as int));
            assert(all.take(i + 1).last() == all[i as int]);
        }
        match read_network(&entries[i]) {
            Some(n) => {
                ranges.insert(n.display());
            },
            None => {
                invalid = invalid + 1;
            },
        }
        i = i + 1;
    }
    assert(all.take(i as int) =~= all);
    proof {
        ranges.lemma_order();
    }
    Some(ParsedPublishedRanges { ranges: ranges.to_list(), invalid_records: invalid })
}

/// What downloaded content comes to: nothing where it is not JSON or has no list.
pub open spec fn published_in(bytes: Seq<u8>) -> Result<PublishedModel, bool> {
    match json_from_bytes(bytes) {
        None => Err(false),
        Some(document) => match prefixes_of(document) {
            None => Err(true),
            Some(entries) => Ok(published(entries)),
        },
    }
}

/// Whether an error says why content was refused.
pub open spec fn explains(e: BotRangeError, is_json: bool) -> bool {
    if is_json {
        e is NoPrefixes
    } else {
        e is NotJson
    }
}

pub fn parse_published_ranges(input: &[u8]) -> (r: Result<ParsedPublishedRanges, BotRangeError>)
    ensures
        match (r, published_in(input@)) {
            (Ok(p), Ok(m)) => is_parsed(p, m),
            (Err(e), Err(is_json)) => explains(e, is_json),
            _ => false,
        },
{
    match read_json_bytes(input) {
        None => Err(BotRangeError::NotJson),
        Some(document) => match ranges_of_document(&document) {
            Some(p) => Ok(p),
            None => Err(BotRangeError::NoPrefixes),
        },
    }
}

pub fn published_ranges_from_json(input: &[u8]) -> (r: Result<Vec<String>, BotRangeError>)
    ensures
        match (r, published_in(input@)) {
            (Ok(list), Ok(m)) => texts(list@) == ordered_texts(m.ranges),
            (Err(e), Err(is_json)) => explains(e, is_json),
            _ => false,
        },
{
    match parse_published_ranges(input) {
        Ok(p) => Ok(p.ranges),
        Err(e) => Err(e),
    }
}

/// A source and what was downloaded from it.
pub struct ProvenanceModel {
    pub url: Seq<char>,
    pub retrieved_at: Seq<char>,
    pub sha256: Seq<char>,
    pub records: nat,
    pub invalid: nat,
}

impl View for BotRangeSourceProvenance {
    type V = ProvenanceModel;

    open spec fn view(&self) -> ProvenanceModel {
        ProvenanceModel {
            url: self.url@,
            retrieved_at: self.retrieved_at@,
            sha256: self.sha256@,
            records: self.records as nat,
            invalid: self.invalid_records_excluded as nat,
        }
    }
}

pub open spec fn provenance_of(
    source: BotRangeSourceDefinition,
    bytes: Seq<u8>,
    m: PublishedModel,
    retrieved_at: Seq<char>,
) -> ProvenanceModel {
    ProvenanceModel {
        url: source.url@,
        retrieved_at,
        sha256: digest_text(bytes),
        records: ordered_texts(m.ranges).len(),
        invalid: m.invalid,
    }
}

pub open spec fn urls_of(list: Seq<ProvenanceModel>) -> Seq<Seq<char>> {
    list.map_values(|p: ProvenanceModel| p.url)
}

/// What is known of an operator from its sources.
pub struct OperatorModel {
    pub name: Seq<char>,
    pub patterns: Set<Seq<char>>,
    pub ranges: Set<Seq<char>>,
    /// In the order of the addresses of the sources.
    pub sources: Seq<ProvenanceModel>,
}

impl OperatorModel {
    pub open spec fn none(name: Seq<char>) -> OperatorModel {
        OperatorModel {
            name,
            patterns: Set::empty(),
            ranges: Set::empty(),
            sources: Seq::empty(),
        }
    }

    /// What is known with one more source: of several names the first in the order on texts is
    /// kept.
    pub open spec fn with(
        self,
        source: BotRangeSourceDefinition,
        p: ProvenanceModel,
        m: PublishedModel,
    ) -> OperatorModel {
        OperatorModel {
            name: if text_before(source.operator_name@, self.name) {
                source.operator_name@
            } else {
                self.name
            },
            patterns: self.patterns.union(texts(source.user_agent_patterns@).to_set()),
            ranges: self.ranges.union(m.ranges),
            sources: self.sources.insert(place_after(urls_of(self.sources), p.url), p),
        }
    }
}

/// What is known of each operator.
pub type OperatorMap = Map<Seq<char>, OperatorModel>;

/// Whether a source was downloaded and has ranges.
pub open spec fn usable_source(
    source: BotRangeSourceDefinition,
    downloads: Map<Seq<char>, Vec<u8>>,
) -> bool {
    downloads.dom().contains(source.url@) && published_in(downloads[source.url@]@) is Ok
}

/// What is known of each operator from a list of sources.
pub open spec fn operators_from(
    sources: Seq<BotRangeSourceDefinition>,
    downloads: Map<Seq<char>, Vec<u8>>,
    retrieved_at: Seq<char>,
) -> OperatorMap
    decreases sources.len(),
{
    if sources.len() == 0 {
        Map::empty()
    } else {
        let before = operators_from(sources.drop_last(), downloads, retrieved_at);
        let source = sources.last();
        let bytes = downloads[source.url@]@;
        let m = published_in(bytes)->Ok_0;
        let id = source.operator_id@;
        let known = if before.dom().contains(id) {
            before[id]
        } else {
            OperatorModel::none(source.operator_name@)
        };
        before.insert(id, known.with(source, provenance_of(source, bytes, m, retrieved_at), m))
    }
}

/// An operator while its sources are read.
#[derive(Debug)]
struct OperatorDraft {
    name: String,
    patterns: TextSet,
    ranges: TextSet,
    urls: Vec<String>,
    sources: Vec<BotRangeSourceProvenance>,
}

pub open spec fn provenance_models(list: Seq<BotRangeSourceProvenance>) -> Seq<ProvenanceModel> {
    list.map_values(|p: BotRangeSourceProvenance| p@)
}

impl OperatorDraft {
    spec fn model(&self) -> OperatorModel {
        OperatorModel {
            name: self.name@,
            patterns: self.patterns@,
            ranges: self.ranges@,
            sources: provenance_models(self.sources@),
        }
    }

    spec fn wf(&self) -> bool {
        &&& self.patterns.wf()
        &&& self.ranges.wf()
        &&& texts(self.urls@) == urls_of(provenance_models(self.sources@))
        &&& nondecreasing(texts(self.urls@))
    }

    fn new(name: &str) -> (r: Self)
        ensures
            r.wf(),
            r.model() == OperatorModel::none(name@),
    {
        let r = OperatorDraft {
            name: name.to_owned(),
            patterns: TextSet::new(),
            ranges: TextSet::new(),
            urls: Vec::new(),
            sources: Vec::new(),
        };
        assert(texts(r.urls@) =~= urls_of(provenance_models(r.sources@)));
        assert(provenance_models(r.sources@) =~= Seq::<ProvenanceModel>::empty());
        r
    }

    fn add(&mut self, source: &BotRangeSourceDefinition, provenance: BotRangeSourceProvenance, ranges: &Vec<String>, m: Ghost<PublishedModel>)
        requires
            old(self).wf(),
            texts(ranges@) == ordered_texts(m@.ranges),
            m@.ranges.finite(),
        ensures
            final(self).wf(),
            final(self).model() == old(self).model().with(*source, provenance@, m@),
    {
        let ghost before = self.model();
        match compare_text(source.operator_name.as_str(), self.name.as_str()) {
            TextOrder::Before => {
                self.name = source.operator_name.clone();
            },
            _ => {},
        }
        insert_all(&mut self.patterns, &source.user_agent_patterns);
        insert_all(&mut self.ranges, ranges);
        proof {
            crate::ordered::ordered_texts_lists_the_members(m@.ranges);
            lemma_place_after(texts(self.urls@), provenance.url@);
        }
        let at = find_place_after(&self.urls, provenance.url.as_str());
        let ghost old_urls = self.urls@;
        let ghost old_sources = self.sources@;
        let ghost p = provenance@;
        self.urls.insert(at, provenance.url.clone());
        self.sources.insert(at, provenance);
        proof {
            assert(texts(self.urls@) =~= texts(old_urls).insert(at as int, p.url));
            assert(provenance_models(self.sources@) =~= provenance_models(old_sources).insert(
                at as int,
                p,
            ));
            assert(urls_of(provenance_models(self.sources@)) =~= urls_of(
                provenance_models(old_sources),
            ).insert(at as int, p.url));
        }
    }
}

fn insert_all(members: &mut TextSet, list: &Vec<String>)
    requires
        old(members).wf(),
    ensures
        final(members).wf(),
        final(members)@ == old(members)@.union(texts(list@).to_set()),
{
    let ghost before = members@;
    let mut i: usize = 0;
    assert(before.union(texts(list@).take(0).to_set()) =~= before);
    while i < list.len()
        invariant
            members.wf(),
            i <= list@.len(),
            members@ == before.union(texts(list@).take(i as int).to_set()),
        decreases list.len() - i,
    {
        let ghost done = texts(list@).take(i as int);
        let ghost next = texts(list@).take(i + 1);
        members.insert(list[i].clone());
        proof {
            assert(next =~= done.push(list@[i as int]@));
            assert(next.to_set() =~= done.to_set().insert(list@[i as int]@)) by {
                assert forall|k: Seq<char>| next.to_set().contains(k) == done.to_set().insert(
                    list@[i as int]@,
                ).contains(k) by {
                    if done.to_set().contains(k) {
                        let n = done.index_of(k);
                        assert(next[n] == k);
                    }
                    assert(next[done.len() as int] == list@[i as int]@);
                    if next.to_set().contains(k) {
                        let n = next.index_of(k);
                        if n < done.len() {
                            assert(done[n] == k);
                        }
                    }
                }
            }
            assert(members@ =~= before.union(next.to_set()));
        }
        i = i + 1;
    }
    assert(texts(list@).take(i as int) =~= texts(list@));
}

/// Whether an operator of a snapshot says what is known of it.
pub open spec fn is_operator(r: BotOperatorSnapshot, id: Seq<char>, m: OperatorModel) -> bool {
    &&& r.operator_id@ == id
    &&& r.operator_name@ == m.name
    &&& texts(r.user_agent_patterns@) == ordered_texts(m.patterns)
    &&& texts(r.cidrs@) == ordered_texts(m.ranges)
    &&& provenance_models(r.sources@) == m.sources
}

/// Whether a snapshot lists what is known of each operator, in the order of the operators.
pub open spec fn is_snapshot(r: BotRangeSnapshot, m: OperatorMap, retrieved_at: Seq<char>) -> bool {
    let ids = ordered_texts(m.dom());
    &&& r.report_kind@ == BOT_RANGE_REPORT_KIND@
    &&& r.generated_at@ == retrieved_at
    &&& r.safety_note@ == BOT_RANGE_SAFETY_NOTE@
    &&& r.operators@.len() == ids.len()
    &&& forall|i: int|
        0 <= i < ids.len() ==> is_operator(#[trigger] r.operators@[i], ids[i], m[ids[i]])
}

proof fn lemma_published_finite(entries: Seq<JsonModel>)
    ensures
        published(entries).ranges.finite(),
    decreases entries.len(),
{
    if entries.len() > 0 {
        lemma_published_finite(entries.drop_last());
    }
}

/// The drafts of the operators as a map.
spec fn draft_models(m: Map<Seq<char>, OperatorDraft>) -> OperatorMap {
    m.map_values(|d: OperatorDraft| d.model())
}

fn add_source(
    drafts: &mut TextMap<OperatorDraft>,
    source: &BotRangeSourceDefinition,
    provenance: BotRangeSourceProvenance,
    ranges: &Vec<String>,
    m: Ghost<PublishedModel>,
)
    requires
        old(drafts).wf(),
        forall|id: Seq<char>| #[trigger] old(drafts)@.dom().contains(id) ==> old(drafts)@[id].wf(),
        texts(ranges@) == ordered_texts(m@.ranges),
        m@.ranges.finite(),
    ensures
        final(drafts).wf(),
        forall|id: Seq<char>| #[trigger]
            final(drafts)@.dom().contains(id) ==> final(drafts)@[id].wf(),
        ({
            let before = draft_models(old(drafts)@);
            let id = source.operator_id@;
            let known = if before.dom().contains(id) {
                before[id]
            } else {
                OperatorModel::none(source.operator_name@)
            };
            draft_models(final(drafts)@) == before.insert(
                id,
                known.with(*source, provenance@, m@),
            )
        }),
{
    let ghost before = draft_models(drafts@);
    let ghost raw = drafts@;
    let id = source.operator_id.as_str();
    if !drafts.contains_key(id) {
        drafts.insert(
            source.operator_id.clone(),
            OperatorDraft::new(source.operator_name.as_str()),
        );
    }
    let ghost middle = drafts@;
    assert(middle.dom().contains(id@));
    let ghost p = provenance@;
    if let Some(draft) = drafts.get_mut(id) {
        draft.add(source, provenance, ranges, m);
    }
    proof {
        let known = if before.dom().contains(id@) {
            before[id@]
        } else {
            OperatorModel::none(source.operator_name@)
        };
        assert(middle[id@].model() == known);
        assert(draft_models(drafts@) =~= before.insert(id@, known.with(*source, p, m@)));
    }
}

/// A snapshot of already downloaded public ranges. The first source that was not downloaded or
/// has no ranges is refused.
pub fn snapshot_from_downloads(
    sources: &Vec<BotRangeSourceDefinition>,
    downloads: &TextMap<Vec<u8>>,
    retrieved_at: &str,
) -> (r: Result<BotRangeSnapshot, BotRangeError>)
    requires
        downloads.wf(),
    ensures
        match r {
            Ok(snapshot) => {
                &&& forall|i: int|
                    0 <= i < sources@.len() ==> usable_source(#[trigger] sources@[i], downloads@)
                &&& is_snapshot(
                    snapshot,
                    operators_from(sources@, downloads@, retrieved_at@),
                    retrieved_at@,
                )
            },
            Err(e) => exists|i: int|
                {
                    &&& 0 <= i < sources@.len()
                    &&& !usable_source(#[trigger] sources@[i], downloads@)
                    &&& forall|j: int|
                        0 <= j < i ==> usable_source(#[trigger] sources@[j], downloads@)
                    &&& if downloads@.dom().contains(sources@[i].url@) {
                        explains(e, published_in(downloads@[sources@[i].url@]@)->Err_0)
                    } else {
                        e matches BotRangeError::NotDownloaded(url) && url@ == sources@[i].url@
                    }
                },
        },
{
    let mut drafts: TextMap<OperatorDraft> = TextMap::new();
    let mut i: usize = 0;
    assert(draft_models(drafts@) =~= Map::<Seq<char>, OperatorModel>::empty());
    assert(sources@.take(0) =~= Seq::<BotRangeSourceDefinition>::empty());
    while i < sources.len()
        invariant
            downloads.wf(),
            i <= sources@.len(),
            forall|j: int| 0 <= j < i ==> usable_source(#[trigger] sources@[j], downloads@),
            drafts.wf(),
            forall|id: Seq<char>| #[trigger] drafts@.dom().contains(id) ==> drafts@[id].wf(),
            draft_models(drafts@) == operators_from(
                sources@.take(i as int),
                downloads@,
                retrieved_at@,
            ),
        decreases sources.len() - i,
    {
        let source = &sources[i];
        proof {
            assert(sources@.take(i + 1).drop_last() =~= sources@.take(i as int));
            assert(sources@.take(i + 1).last() == *source);
        }
        let bytes = match downloads.get(source.url.as_str()) {
            Some(bytes) => bytes,
            None => {
                assert(!usable_source(sources@[i as int], downloads@));
                return Err(BotRangeError::NotDownloaded(source.url.clone()));
            },
        };
        let parsed = match parse_published_ranges(bytes.as_slice()) {
            Ok(parsed) => parsed,
            Err(e) => {
                assert(!usable_source(sources@[i as int], downloads@));
                return Err(e);
            },
        };
        let ghost m = published_in(bytes@)->Ok_0;
        proof {
            let document = json_from_bytes(bytes@).unwrap();
            lemma_published_finite(prefixes_of(document).unwrap());
            assert(usable_source(sources@[i as int], downloads@));
            assert(texts(parsed.ranges@).len() == parsed.ranges@.len());
        }
        let provenance = BotRangeSourceProvenance {
            url: source.url.clone(),
            retrieved_at: retrieved_at.to_owned(),
            sha256: digest(bytes.as_slice()),
            records: parsed.ranges.len(),
            invalid_records_excluded: parsed.invalid_records,
        };
        add_source(&mut drafts, source, provenance, &parsed.ranges, Ghost(m));
        i = i + 1;
    }
    assert(sources@.take(i as int) =~= sources@);
    Ok(snapshot_of(&drafts, retrieved_at))
}

fn copy_provenance(list: &Vec<BotRangeSourceProvenance>) -> (r: Vec<BotRangeSourceProvenance>)
    ensures
        provenance_models(r@) == provenance_models(list@),
{
    let mut r: Vec<BotRangeSourceProvenance> = Vec::new();
    let mut i: usize = 0;
    while i < list.len()
        invariant
            i <= list@.len(),
            r@.len() == i,
            forall|j: int| 0 <= j < i ==> (#[trigger] r@[j])@ == list@[j]@,
        decreases list.len() - i,
    {
        let p = &list[i];
        r.push(
            BotRangeSourceProvenance {
                url: p.url.clone(),
                retrieved_at: p.retrieved_at.clone(),
                sha256: p.sha256.clone(),
                records: p.records,
                invalid_records_excluded: p.invalid_records_excluded,
            },
        );
        i = i + 1;
    }
    assert(provenance_models(r@) =~= provenance_models(list@));
    r
}

fn snapshot_of(drafts: &TextMap<OperatorDraft>, retrieved_at: &str) -> (r: BotRangeSnapshot)
    requires
        drafts.wf(),
        forall|id: Seq<char>| #[trigger] drafts@.dom().contains(id) ==> drafts@[id].wf(),
    ensures
        is_snapshot(r, draft_models(drafts@), retrieved_at@),
{
    let ghost m = draft_models(drafts@);
    let ghost ids = ordered_texts(m.dom());
    proof {
        drafts.lemma_order();
        drafts.lemma_positions();
        assert(m.dom() =~= drafts@.dom());
    }
    let count = drafts.len();
    let mut operators: Vec<BotOperatorSnapshot> = Vec::new();
    let mut i: usize = 0;
    while i < count
        invariant
            drafts.wf(),
            forall|id: Seq<char>| #[trigger] drafts@.dom().contains(id) ==> drafts@[id].wf(),
            m == draft_models(drafts@),
            m.dom() == drafts@.dom(),
            ids == drafts.key_seq(),
            count == ids.len(),
            i <= count,
            operators@.len() == i,
            forall|j: int|
                0 <= j < i ==> is_operator(#[trigger] operators@[j], ids[j], m[ids[j]]),
        decreases count - i,
    {
        proof {
            drafts.lemma_positions();
            assert(drafts@.dom().contains(ids[i as int]));
        }
        let draft = drafts.value_at(i);
        proof {
            assert(m[ids[i as int]] == draft.model());
            draft.patterns.lemma_order();
            draft.ranges.lemma_order();
        }
        operators.push(
            BotOperatorSnapshot {
                operator_id: drafts.key_at(i).clone(),
                operator_name: draft.name.clone(),
                user_agent_patterns: draft.patterns.to_list(),
                cidrs: draft.ranges.to_list(),
                sources: copy_provenance(&draft.sources),
            },
        );
        i = i + 1;
    }
    BotRangeSnapshot {
        report_kind: BOT_RANGE_REPORT_KIND.to_owned(),
        generated_at: retrieved_at.to_owned(),
        safety_note: BOT_RANGE_SAFETY_NOTE.to_owned(),
        operators,
    }
}

/// Whether a source comes before another in a catalog: by operator, then by address.
pub open spec fn source_before(a: BotRangeSourceDefinition, b: BotRangeSourceDefinition) -> bool {
    text_before(a.operator_id@, b.operator_id@) || (a.operator_id@ == b.operator_id@
        && text_before(a.url@, b.url@))
}

/// The first place of a list whose source does not come before the given one.
pub open spec fn source_place(
    list: Seq<BotRangeSourceDefinition>,
    source: BotRangeSourceDefinition,
) -> int
    decreases list.len(),
{
    if list.len() == 0 || !source_before(list[0], source) {
        0
    } else {
        1 + source_place(list.skip(1), source)
    }
}

/// Sources in the order of a catalog; those that are equal in order stay as they were.
pub open spec fn catalog_order(list: Seq<BotRangeSourceDefinition>) -> Seq<
    BotRangeSourceDefinition,
>
    decreases list.len(),
{
    if list.len() == 0 {
        seq![]
    } else {
        let rest = catalog_order(list.skip(1));
        rest.insert(source_place(rest, list[0]), list[0])
    }
}

fn is_source_before(a: &BotRangeSourceDefinition, b: &BotRangeSourceDefinition) -> (r: bool)
    ensures
        r == source_before(*a, *b),
{
    proof {
        text_order_is_total(a.operator_id@, b.operator_id@);
        text_order_is_total(a.url@, b.url@);
    }
    match compare_text(a.operator_id.as_str(), b.operator_id.as_str()) {
        TextOrder::Before => true,
        TextOrder::After => false,
        TextOrder::Same => match compare_text(a.url.as_str(), b.url.as_str()) {
            TextOrder::Before => true,
            _ => false,
        },
    }
}

fn find_source_place(
    list: &Vec<BotRangeSourceDefinition>,
    source: &BotRangeSourceDefinition,
) -> (r: usize)
    ensures
        r == source_place(list@, *source),
        r <= list@.len(),
{
    let mut i: usize = 0;
    assert(list@.skip(0) =~= list@);
    while i < list.len()
        invariant
            i <= list@.len(),
            source_place(list@, *source) == i + source_place(list@.skip(i as int), *source),
        decreases list.len() - i,
    {
        assert(list@.skip(i as int)[0] == list@[i as int]);
        assert(list@.skip(i as int).skip(1) =~= list@.skip(i + 1));
        if !is_source_before(&list[i], source) {
            return i;
        }
        i = i + 1;
    }
    i
}

/// The sources of a catalog, by operator and then by address.
pub fn source_catalog(sources: Vec<BotRangeSourceDefinition>) -> (r: Vec<BotRangeSourceDefinition>)
    ensures
        r@ == catalog_order(sources@),
{
    let ghost all = sources@;
    let mut rest = sources;
    let mut r: Vec<BotRangeSourceDefinition> = Vec::new();
    assert(all.skip(all.len() as int) =~= Seq::<BotRangeSourceDefinition>::empty());
    assert(r@ =~= Seq::<BotRangeSourceDefinition>::empty());
    while rest.len() > 0
        invariant
            rest@.len() <= all.len(),
            rest@ == all.take(rest@.len() as int),
            r@ == catalog_order(all.skip(rest@.len() as int)),
        decreases rest.len(),
    {
        let ghost n = rest@.len() as int;
        let ghost sorted = r@;
        match rest.pop() {
            Some(source) => {
                proof {
                    assert(all.take(n)[n - 1] == all[n - 1]);
                    assert(rest@ =~= all.take(n - 1));
                    assert(all.skip(n - 1)[0] == source);
                    assert(all.skip(n - 1).skip(1) =~= all.skip(n));
                }
                let at = find_source_place(&r, &source);
                r.insert(at, source);
                assert(r@ =~= sorted.insert(at as int, source));
            },
            None => {},
        }
    }
    assert(all.skip(0) =~= all);
    r
}

} // verus!
