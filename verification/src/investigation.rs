//! Bounded private request context, independent of detection matches.

use crate::evaluation::PathProvenance;
use crate::event::{TelemetryCapabilities, TelemetryProfile, Timestamp, WebEvent};
use crate::network::{parsed_address, Address};
use crate::text::{compare_text, text_before, text_order_is_total, text_order_is_transitive, TextOrder};
use vstd::prelude::*;
use vstd::string::*;

verus! {

broadcast use vstd::string::group_string_axioms;

pub const SAFETY_NOTE: &'static str =
    "PRIVATE: observed connection peers and request paths, not actor identity or a determination of attack, exploitation, or compromise. Peers may be CDN/LB/NAT/proxies. Includes non-matching requests; no detection is inferred. Do not share without review.";

pub const RETENTION_NOTE: &'static str =
    "First eligible records in sorted input-file/physical-line order are retained; retained records are then sorted by UTC time, file, and line. Not necessarily the earliest records when capped. Query values are absent unless explicitly enabled. A field absent from a record is either unavailable in this telemetry profile (see field_availability) or unrecorded for that request. Absence is not a determination that a control did not act. Retained time bounds describe only the retained records. When records were omitted beyond the cap, they are a lower bound on the observed span.";

#[derive(Clone, Debug)]
pub struct SourceReference {
    pub input_file: String,
    /// The physical line in the decoded text, counted from one, blank and malformed lines too.
    pub line_number: u64,
}

#[derive(Clone, Debug)]
pub struct ContextRecord {
    pub timestamp: Timestamp,
    pub source_ip: String,
    pub method: Option<String>,
    pub uri_path: Option<String>,
    pub uri_query: Option<String>,
    pub response_status: Option<u16>,
    pub response_bytes: Option<u64>,
    pub source_reference: SourceReference,
    pub host: Option<String>,
    pub user_agent: Option<String>,
    pub country: Option<String>,
    pub ja3: Option<String>,
    pub ja4: Option<String>,
    pub waf_action: Option<String>,
    pub waf_labels: Vec<String>,
    pub referer: Option<String>,
}

#[derive(Clone, Copy, Debug, PartialEq, Eq, Structural)]
pub struct ContextCounts {
    pub parseable_records: u64,
    pub parse_errors: u64,
    pub nonselected_peers: u64,
    pub selected_without_timestamp: u64,
    pub selected_outside_window: u64,
    pub eligible_records: u64,
    pub retained_records: usize,
    pub records_beyond_cap: u64,
    pub maximum_records: usize,
    pub earliest_retained: Option<Timestamp>,
    pub latest_retained: Option<Timestamp>,
}

#[derive(Debug)]
pub struct ContextReport {
    pub report_kind: String,
    pub safety_note: String,
    pub retention_note: String,
    pub from: Option<Timestamp>,
    pub to: Option<Timestamp>,
    pub query_values_included: bool,
    /// What was selected, kept even where nothing matches or the cap is reached.
    pub selected_source_ips: Vec<Address>,
    pub counts: ContextCounts,
    pub corpus: Vec<PathProvenance>,
    pub records: Vec<ContextRecord>,
    pub field_availability: TelemetryCapabilities,
}

#[derive(Clone, Debug)]
pub struct ContextOptions {
    pub source_ips: Vec<Address>,
    pub from: Option<Timestamp>,
    pub to: Option<Timestamp>,
    pub maximum_records: usize,
    pub include_query: bool,
    /// Whether the telemetry records the country of a peer.
    pub country_recorded: bool,
}

/// Whether a selection can be evaluated.
pub open spec fn usable(options: ContextOptions) -> bool {
    &&& !(options.from is Some && options.to is Some && options.to.unwrap().before(
        options.from.unwrap(),
    ))
    &&& options.maximum_records > 0
    &&& options.source_ips@.len() > 0
}

/// A selection that cannot be evaluated.
#[derive(Clone, Copy, Debug, PartialEq, Eq, Structural)]
pub struct ContextError;

impl ContextError {
    pub fn message(&self) -> (r: &'static str)
        ensures
            r@
                == "context requires ordered UTC bounds when both are specified, selected peers, and a positive finite record cap"@,
    {
        "context requires ordered UTC bounds when both are specified, selected peers, and a positive finite record cap"
    }
}

/// What becomes of a record.
#[derive(Clone, Copy, Debug, PartialEq, Eq, Structural)]
pub enum Standing {
    NotSelected,
    NoTimestamp,
    OutsideWindow,
    Eligible,
}

/// Whether the peer of an event is one of the selected addresses.
pub open spec fn is_selected(options: ContextOptions, e: WebEvent) -> bool {
    e.source_ip matches Some(ip) && parsed_address(ip@) matches Some(a)
        && options.source_ips@.contains(a)
}

/// What becomes of an event: both bounds of the window are inside.
pub open spec fn standing(options: ContextOptions, e: WebEvent) -> Standing {
    if !is_selected(options, e) {
        Standing::NotSelected
    } else {
        match e.timestamp {
            None => Standing::NoTimestamp,
            Some(t) => if (options.from matches Some(from) && t.before(from)) || (
            options.to matches Some(to) && to.before(t)) {
                Standing::OutsideWindow
            } else {
                Standing::Eligible
            },
        }
    }
}

fn standing_of(options: &ContextOptions, e: &WebEvent) -> (r: Standing)
    ensures
        r == standing(*options, *e),
{
    let address = match &e.source_ip {
        Some(ip) => Address::parse(ip.as_str()),
        None => None,
    };
    let address = match address {
        Some(a) => a,
        None => {
            return Standing::NotSelected;
        },
    };
    let mut found = false;
    let mut i: usize = 0;
    while i < options.source_ips.len()
        invariant
            i <= options.source_ips@.len(),
            found == exists|j: int| 0 <= j < i && #[trigger] options.source_ips@[j] == address,
        decreases options.source_ips.len() - i,
    {
        if options.source_ips[i] == address {
            found = true;
        }
        i = i + 1;
    }
    if !found {
        return Standing::NotSelected;
    }
    let t = match e.timestamp {
        Some(t) => t,
        None => {
            return Standing::NoTimestamp;
        },
    };
    let early = match &options.from {
        Some(from) => t.is_before(from),
        None => false,
    };
    let late = match &options.to {
        Some(to) => to.is_before(&t),
        None => false,
    };
    if early || late {
        Standing::OutsideWindow
    } else {
        Standing::Eligible
    }
}

/// A value, where it may be shown.
pub open spec fn shown<T>(value: Option<T>, available: bool) -> Option<T> {
    if available {
        value
    } else {
        None
    }
}

fn show<T>(value: Option<T>, available: bool) -> (r: Option<T>)
    ensures
        r == shown(value, available),
{
    if available {
        value
    } else {
        None
    }
}

/// Whether a record says what the telemetry records of an event. Query values, and the referer,
/// which can hold them, need to be enabled.
pub open spec fn is_record(
    r: ContextRecord,
    e: WebEvent,
    options: ContextOptions,
    fields: TelemetryCapabilities,
    file: Seq<char>,
    line: u64,
) -> bool {
    &&& Some(r.timestamp) == e.timestamp
    &&& Some(r.source_ip) == e.source_ip
    &&& r.method == e.method
    &&& r.uri_path == e.uri_path
    &&& r.uri_query == shown(e.uri_query, options.include_query)
    &&& r.response_status == e.status
    &&& r.response_bytes == e.response_bytes
    &&& r.source_reference.input_file@ == file
    &&& r.source_reference.line_number == line
    &&& r.host == shown(e.host, fields.host)
    &&& r.user_agent == shown(e.user_agent, fields.user_agent)
    &&& r.country == shown(e.country, options.country_recorded)
    &&& r.ja3 == shown(e.ja3, fields.ja3)
    &&& r.ja4 == shown(e.ja4, fields.ja4)
    &&& r.waf_action == shown(e.waf_action, fields.waf_action)
    &&& if fields.waf_labels {
        r.waf_labels == e.waf_labels
    } else {
        r.waf_labels@.len() == 0
    }
    &&& r.referer == shown(e.referer, options.include_query && fields.referer)
}

fn record_of(
    event: WebEvent,
    options: &ContextOptions,
    fields: &TelemetryCapabilities,
    file: &str,
    line_number: u64,
) -> (r: ContextRecord)
    requires
        event.timestamp is Some,
        event.source_ip is Some,
    ensures
        is_record(r, event, *options, *fields, file@, line_number),
{
    let waf_labels = if fields.waf_labels {
        event.waf_labels
    } else {
        Vec::new()
    };
    ContextRecord {
        timestamp: event.timestamp.unwrap(),
        source_ip: event.source_ip.unwrap(),
        method: event.method,
        uri_path: event.uri_path,
        uri_query: show(event.uri_query, options.include_query),
        response_status: event.status,
        response_bytes: event.response_bytes,
        source_reference: SourceReference { input_file: file.to_owned(), line_number },
        host: show(event.host, fields.host),
        user_agent: show(event.user_agent, fields.user_agent),
        country: show(event.country, options.country_recorded),
        ja3: show(event.ja3, fields.ja3),
        ja4: show(event.ja4, fields.ja4),
        waf_action: show(event.waf_action, fields.waf_action),
        waf_labels,
        referer: show(event.referer, options.include_query && fields.referer),
    }
}

/// The order of the report: by time, file and line.
pub open spec fn record_before(a: ContextRecord, b: ContextRecord) -> bool {
    let (fa, fb) = (a.source_reference.input_file@, b.source_reference.input_file@);
    a.timestamp.before(b.timestamp) || (a.timestamp == b.timestamp && (text_before(fa, fb) || (fa
        == fb && a.source_reference.line_number < b.source_reference.line_number)))
}

fn is_record_before(a: &ContextRecord, b: &ContextRecord) -> (r: bool)
    ensures
        r == record_before(*a, *b),
{
    if a.timestamp.is_before(&b.timestamp) {
        return true;
    }
    if a.timestamp != b.timestamp {
        return false;
    }
    match compare_text(
        a.source_reference.input_file.as_str(),
        b.source_reference.input_file.as_str(),
    ) {
        TextOrder::Before => true,
        TextOrder::After => false,
        TextOrder::Same => a.source_reference.line_number < b.source_reference.line_number,
    }
}

/// Whether no record comes before an earlier one of the list.
pub open spec fn in_order(list: Seq<ContextRecord>) -> bool {
    forall|i: int, j: int|
        0 <= i < j < list.len() ==> !record_before(#[trigger] list[j], #[trigger] list[i])
}

/// Whether a list is another one with a record put in its place, after those that are equal in
/// order.
pub open spec fn is_placed(
    list: Seq<ContextRecord>,
    before: Seq<ContextRecord>,
    record: ContextRecord,
) -> bool {
    exists|at: int|
        {
            &&& 0 <= at <= before.len()
            &&& list == #[trigger] before.insert(at, record)
            &&& forall|i: int| 0 <= i < at ==> !record_before(record, #[trigger] before[i])
            &&& forall|i: int| at <= i < before.len() ==> record_before(record, #[trigger] before[i])
        }
}

proof fn lemma_not_before_transitive(a: ContextRecord, b: ContextRecord, c: ContextRecord)
    requires
        !record_before(b, a),
        !record_before(c, b),
    ensures
        !record_before(c, a),
{
    let (fa, fb, fc) = (
        a.source_reference.input_file@,
        b.source_reference.input_file@,
        c.source_reference.input_file@,
    );
    text_order_is_total(fa, fb);
    text_order_is_total(fb, fc);
    text_order_is_total(fa, fc);
    if text_before(fa, fb) && text_before(fb, fc) {
        text_order_is_transitive(fa, fb, fc);
    }
}

proof fn lemma_before_transitive(a: ContextRecord, b: ContextRecord, c: ContextRecord)
    requires
        record_before(a, b),
        !record_before(c, b),
    ensures
        record_before(a, c),
{
    let (fa, fb, fc) = (
        a.source_reference.input_file@,
        b.source_reference.input_file@,
        c.source_reference.input_file@,
    );
    text_order_is_total(fa, fb);
    text_order_is_total(fb, fc);
    text_order_is_total(fa, fc);
    if text_before(fa, fb) && text_before(fb, fc) {
        text_order_is_transitive(fa, fb, fc);
    }
}

fn place_for(list: &Vec<ContextRecord>, record: &ContextRecord) -> (r: usize)
    requires
        in_order(list@),
    ensures
        r <= list@.len(),
        forall|i: int| 0 <= i < r ==> !record_before(*record, #[trigger] list@[i]),
        forall|i: int| r <= i < list@.len() ==> record_before(*record, #[trigger] list@[i]),
{
    let mut low: usize = 0;
    let mut high: usize = list.len();
    while low < high
        invariant
            in_order(list@),
            low <= high <= list@.len(),
            forall|i: int| 0 <= i < low ==> !record_before(*record, #[trigger] list@[i]),
            forall|i: int| high <= i < list@.len() ==> record_before(*record, #[trigger] list@[i]),
        decreases high - low,
    {
        let middle: usize = low + (high - low) / 2;
        if is_record_before(record, &list[middle]) {
            assert forall|i: int| middle <= i < list@.len() implies record_before(
                *record,
                #[trigger] list@[i],
            ) by {
                if middle < i {
                    lemma_before_transitive(*record, list@[middle as int], list@[i]);
                }
            }
            high = middle;
        } else {
            assert forall|i: int| 0 <= i < middle + 1 implies !record_before(
                *record,
                #[trigger] list@[i],
            ) by {
                if i < middle {
                    lemma_not_before_transitive(list@[i], list@[middle as int], *record);
                }
            }
            low = middle + 1;
        }
    }
    low
}

proof fn lemma_placed_in_order(
    list: Seq<ContextRecord>,
    before: Seq<ContextRecord>,
    record: ContextRecord,
)
    requires
        in_order(before),
        is_placed(list, before, record),
    ensures
        in_order(list),
{
    let at = choose|at: int|
        {
            &&& 0 <= at <= before.len()
            &&& list == #[trigger] before.insert(at, record)
            &&& forall|i: int| 0 <= i < at ==> !record_before(record, #[trigger] before[i])
            &&& forall|i: int| at <= i < before.len() ==> record_before(record, #[trigger] before[i])
        };
    assert forall|i: int, j: int| 0 <= i < j < list.len() implies !record_before(
        #[trigger] list[j],
        #[trigger] list[i],
    ) by {
        if i < at && j == at {
            assert(!record_before(record, before[i]));
        } else if i == at {
            assert(record_before(record, before[j - 1]));
            lemma_asymmetric(record, before[j - 1]);
        } else if i < at && j > at {
            assert(!record_before(before[j - 1], before[i]));
        } else if i > at {
            assert(!record_before(before[j - 1], before[i - 1]));
        } else {
            assert(!record_before(before[j], before[i]));
        }
    }
}

proof fn lemma_asymmetric(a: ContextRecord, b: ContextRecord)
    requires
        record_before(a, b),
    ensures
        !record_before(b, a),
{
    text_order_is_total(a.source_reference.input_file@, b.source_reference.input_file@);
}

/// The context that has been collected.
pub struct RequestContext {
    options: ContextOptions,
    fields: TelemetryCapabilities,
    counts: ContextCounts,
    corpus: Vec<PathProvenance>,
    records: Vec<ContextRecord>,
}

/// What has been counted and kept.
pub struct ContextModel {
    pub parseable: nat,
    pub parse_errors: nat,
    pub not_selected: nat,
    pub without_timestamp: nat,
    pub outside: nat,
    pub eligible: nat,
    pub beyond: nat,
    pub records: Seq<ContextRecord>,
    pub corpus: Seq<PathProvenance>,
}

impl ContextModel {
    pub open spec fn none() -> ContextModel {
        ContextModel {
            parseable: 0,
            parse_errors: 0,
            not_selected: 0,
            without_timestamp: 0,
            outside: 0,
            eligible: 0,
            beyond: 0,
            records: seq![],
            corpus: seq![],
        }
    }

    /// Every record that could be read is in one place. No more are kept than may be, and none is
    /// left out before that many are kept.
    pub open spec fn wf(self, maximum: nat) -> bool {
        &&& self.parseable == self.not_selected + self.without_timestamp + self.outside
            + self.eligible
        &&& self.eligible == self.records.len() + self.beyond
        &&& self.records.len() <= maximum
        &&& self.beyond > 0 ==> self.records.len() == maximum
        &&& in_order(self.records)
    }

    /// Whether `next` is what has been collected after one more event.
    pub open spec fn observed(
        self,
        e: WebEvent,
        options: ContextOptions,
        fields: TelemetryCapabilities,
        file: Seq<char>,
        line: u64,
        next: ContextModel,
    ) -> bool {
        let s = standing(options, e);
        let keeps = s == Standing::Eligible && self.records.len() < options.maximum_records;
        &&& next.parseable == self.parseable + 1
        &&& next.parse_errors == self.parse_errors
        &&& next.not_selected == self.not_selected + if s == Standing::NotSelected {
            1nat
        } else {
            0nat
        }
        &&& next.without_timestamp == self.without_timestamp + if s == Standing::NoTimestamp {
            1nat
        } else {
            0nat
        }
        &&& next.outside == self.outside + if s == Standing::OutsideWindow {
            1nat
        } else {
            0nat
        }
        &&& next.eligible == self.eligible + if s == Standing::Eligible {
            1nat
        } else {
            0nat
        }
        &&& next.beyond == self.beyond + if s == Standing::Eligible && !keeps {
            1nat
        } else {
            0nat
        }
        &&& next.corpus == self.corpus
        &&& if keeps {
            exists|record: ContextRecord|
                is_record(record, e, options, fields, file, line) && #[trigger] is_placed(
                    next.records,
                    self.records,
                    record,
                )
        } else {
            next.records == self.records
        }
    }
}

impl View for RequestContext {
    type V = ContextModel;

    closed spec fn view(&self) -> ContextModel {
        ContextModel {
            parseable: self.counts.parseable_records as nat,
            parse_errors: self.counts.parse_errors as nat,
            not_selected: self.counts.nonselected_peers as nat,
            without_timestamp: self.counts.selected_without_timestamp as nat,
            outside: self.counts.selected_outside_window as nat,
            eligible: self.counts.eligible_records as nat,
            beyond: self.counts.records_beyond_cap as nat,
            records: self.records@,
            corpus: self.corpus@,
        }
    }
}

impl RequestContext {
    pub closed spec fn selection(&self) -> ContextOptions {
        self.options
    }

    pub closed spec fn available(&self) -> TelemetryCapabilities {
        self.fields
    }

    pub open spec fn wf(&self) -> bool {
        self@.wf(self.selection().maximum_records as nat)
    }

    /// Starts to collect, unless the selection cannot be evaluated.
    pub fn new(profile: TelemetryProfile, options: ContextOptions) -> (r: Result<
        Self,
        ContextError,
    >)
        ensures
            match r {
                Ok(context) => usable(options) && context.selection() == options
                    && context.available() == profile.records() && context@
                    == ContextModel::none() && context.wf(),
                Err(_) => !usable(options),
            },
    {
        let disordered = match (&options.from, &options.to) {
            (Some(from), Some(to)) => to.is_before(from),
            _ => false,
        };
        if disordered || options.maximum_records == 0 || options.source_ips.len() == 0 {
            return Err(ContextError);
        }
        let counts = ContextCounts {
            parseable_records: 0,
            parse_errors: 0,
            nonselected_peers: 0,
            selected_without_timestamp: 0,
            selected_outside_window: 0,
            eligible_records: 0,
            retained_records: 0,
            records_beyond_cap: 0,
            maximum_records: options.maximum_records,
            earliest_retained: None,
            latest_retained: None,
        };
        let r = RequestContext {
            options,
            fields: profile.capabilities(),
            counts,
            corpus: Vec::new(),
            records: Vec::new(),
        };
        assert(r.records@ =~= Seq::<ContextRecord>::empty());
        assert(r.corpus@ =~= Seq::<PathProvenance>::empty());
        Ok(r)
    }

    /// Whether one more record can be counted.
    pub fn can_observe(&self) -> (r: bool)
        ensures
            r == (self@.parseable < u64::MAX && self@.parse_errors < u64::MAX),
    {
        self.counts.parseable_records < u64::MAX && self.counts.parse_errors < u64::MAX
    }

    /// Counts a line that could not be read.
    pub fn parse_error(&mut self)
        requires
            old(self).wf(),
            old(self)@.parse_errors < u64::MAX,
        ensures
            final(self).wf(),
            final(self).selection() == old(self).selection(),
            final(self).available() == old(self).available(),
            final(self)@ == (ContextModel {
                parse_errors: old(self)@.parse_errors + 1,
                ..old(self)@
            }),
    {
        self.counts.parse_errors = self.counts.parse_errors + 1;
    }

    /// Counts an event and keeps it where it is eligible and there is a place.
    pub fn observe(&mut self, file: &str, line_number: u64, event: WebEvent)
        requires
            old(self).wf(),
            old(self)@.parseable < u64::MAX,
        ensures
            final(self).wf(),
            final(self).selection() == old(self).selection(),
            final(self).available() == old(self).available(),
            old(self)@.observed(
                event,
                old(self).selection(),
                old(self).available(),
                file@,
                line_number,
                final(self)@,
            ),
    {
        self.counts.parseable_records = self.counts.parseable_records + 1;
        match standing_of(&self.options, &event) {
            Standing::NotSelected => {
                self.counts.nonselected_peers = self.counts.nonselected_peers + 1;
                return;
            },
            Standing::NoTimestamp => {
                self.counts.selected_without_timestamp = self.counts.selected_without_timestamp + 1;
                return;
            },
            Standing::OutsideWindow => {
                self.counts.selected_outside_window = self.counts.selected_outside_window + 1;
                return;
            },
            Standing::Eligible => {},
        }
        self.counts.eligible_records = self.counts.eligible_records + 1;
        if self.records.len() >= self.options.maximum_records {
            self.counts.records_beyond_cap = self.counts.records_beyond_cap + 1;
            return;
        }
        let record = record_of(event, &self.options, &self.fields, file, line_number);
        self.keep(record);
    }

    fn keep(&mut self, record: ContextRecord)
        requires
            in_order(old(self)@.records),
        ensures
            final(self).selection() == old(self).selection(),
            final(self).available() == old(self).available(),
            final(self)@ == (ContextModel { records: final(self)@.records, ..old(self)@ }),
            in_order(final(self)@.records),
            final(self)@.records.len() == old(self)@.records.len() + 1,
            is_placed(final(self)@.records, old(self)@.records, record),
    {
        let ghost before = self@;
        let at = place_for(&self.records, &record);
        self.records.insert(at, record);
        proof {
            assert(self.records@ == before.records.insert(at as int, record));
            assert(is_placed(self.records@, before.records, record));
            lemma_placed_in_order(self.records@, before.records, record);
        }
    }

    /// Notes that a file has been read.
    pub fn file_done(&mut self, provenance: PathProvenance)
        requires
            old(self).wf(),
        ensures
            final(self).wf(),
            final(self).selection() == old(self).selection(),
            final(self).available() == old(self).available(),
            final(self)@ == (ContextModel {
                corpus: old(self)@.corpus.push(provenance),
                ..old(self)@
            }),
    {
        self.corpus.push(provenance);
    }

    /// The report on what was collected.
    pub fn finish(self) -> (r: ContextReport)
        requires
            self.wf(),
        ensures
            is_report(r, self@, self.selection(), self.available()),
    {
        let mut counts = self.counts;
        counts.maximum_records = self.options.maximum_records;
        counts.retained_records = self.records.len();
        if self.records.len() == 0 {
            counts.earliest_retained = None;
            counts.latest_retained = None;
        } else {
            counts.earliest_retained = Some(self.records[0].timestamp);
            counts.latest_retained = Some(self.records[self.records.len() - 1].timestamp);
        }
        ContextReport {
            report_kind: "PRIVATE_REQUEST_CONTEXT".to_owned(),
            safety_note: SAFETY_NOTE.to_owned(),
            retention_note: RETENTION_NOTE.to_owned(),
            from: self.options.from,
            to: self.options.to,
            query_values_included: self.options.include_query,
            selected_source_ips: self.options.source_ips,
            counts,
            corpus: self.corpus,
            records: self.records,
            field_availability: self.fields,
        }
    }
}

/// Whether a report says what was collected. The time bounds are those of the kept records.
pub open spec fn is_report(
    r: ContextReport,
    m: ContextModel,
    options: ContextOptions,
    fields: TelemetryCapabilities,
) -> bool {
    &&& r.report_kind@ == "PRIVATE_REQUEST_CONTEXT"@
    &&& r.safety_note@ == SAFETY_NOTE@
    &&& r.retention_note@ == RETENTION_NOTE@
    &&& r.from == options.from
    &&& r.to == options.to
    &&& r.query_values_included == options.include_query
    &&& r.selected_source_ips == options.source_ips
    &&& r.field_availability == fields
    &&& r.records@ == m.records
    &&& r.corpus@ == m.corpus
    &&& r.counts.parseable_records == m.parseable
    &&& r.counts.parse_errors == m.parse_errors
    &&& r.counts.nonselected_peers == m.not_selected
    &&& r.counts.selected_without_timestamp == m.without_timestamp
    &&& r.counts.selected_outside_window == m.outside
    &&& r.counts.eligible_records == m.eligible
    &&& r.counts.records_beyond_cap == m.beyond
    &&& r.counts.maximum_records == options.maximum_records
    &&& r.counts.retained_records == m.records.len()
    &&& r.counts.earliest_retained == (if m.records.len() == 0 {
        None
    } else {
        Some(m.records.first().timestamp)
    })
    &&& r.counts.latest_retained == (if m.records.len() == 0 {
        None
    } else {
        Some(m.records.last().timestamp)
    })
}

/// The counts of a report reconcile, records are left out only where the cap is reached, and the
/// records stand between the time bounds.
pub proof fn reports_reconcile(
    r: ContextReport,
    m: ContextModel,
    options: ContextOptions,
    fields: TelemetryCapabilities,
)
    requires
        m.wf(options.maximum_records as nat),
        is_report(r, m, options, fields),
    ensures
        r.counts.parseable_records == r.counts.nonselected_peers
            + r.counts.selected_without_timestamp + r.counts.selected_outside_window
            + r.counts.eligible_records,
        r.counts.eligible_records == r.counts.retained_records + r.counts.records_beyond_cap,
        r.counts.retained_records <= r.counts.maximum_records,
        r.counts.records_beyond_cap > 0 ==> r.counts.retained_records == r.counts.maximum_records,
        forall|i: int|
            0 <= i < r.records@.len() ==> !(#[trigger] r.records@[i]).timestamp.before(
                r.counts.earliest_retained.unwrap(),
            ) && !r.counts.latest_retained.unwrap().before(r.records@[i].timestamp),
{
    assert forall|i: int| 0 <= i < r.records@.len() implies !(
    #[trigger] r.records@[i]).timestamp.before(r.counts.earliest_retained.unwrap())
        && !r.counts.latest_retained.unwrap().before(r.records@[i].timestamp) by {
        let last = r.records@.len() - 1;
        if i > 0 {
            assert(!record_before(r.records@[i], r.records@[0]));
        }
        if i < last {
            assert(!record_before(r.records@[last], r.records@[i]));
        }
    }
}

/// What a context is told.
pub enum Step {
    Event { event: WebEvent, file: Seq<char>, line: u64 },
    ParseError,
    FileDone(PathProvenance),
}

impl ContextModel {
    /// Whether `next` is what has been collected after one more step.
    pub open spec fn stepped(
        self,
        step: Step,
        options: ContextOptions,
        fields: TelemetryCapabilities,
        next: ContextModel,
    ) -> bool {
        match step {
            Step::Event { event, file, line } => self.observed(
                event,
                options,
                fields,
                file,
                line,
                next,
            ),
            Step::ParseError => next == (ContextModel {
                parse_errors: self.parse_errors + 1,
                ..self
            }),
            Step::FileDone(provenance) => next == (ContextModel {
                corpus: self.corpus.push(provenance),
                ..self
            }),
        }
    }
}

/// Whether each state is what has been collected after the step before it, from nothing on.
pub open spec fn collected_all(
    states: Seq<ContextModel>,
    steps: Seq<Step>,
    options: ContextOptions,
    fields: TelemetryCapabilities,
) -> bool {
    &&& states.len() == steps.len() + 1
    &&& states[0] == ContextModel::none()
    &&& forall|k: int|
        0 <= k < steps.len() ==> (#[trigger] states[k]).stepped(
            steps[k],
            options,
            fields,
            states[k + 1],
        )
}

/// Whether a record is that of the eligible event of a step.
pub open spec fn comes_from(
    r: ContextRecord,
    step: Step,
    options: ContextOptions,
    fields: TelemetryCapabilities,
) -> bool {
    match step {
        Step::Event { event, file, line } => standing(options, event) == Standing::Eligible
            && is_record(r, event, options, fields, file, line),
        _ => false,
    }
}

proof fn lemma_records_come_from_steps(
    states: Seq<ContextModel>,
    steps: Seq<Step>,
    options: ContextOptions,
    fields: TelemetryCapabilities,
    n: int,
    i: int,
) -> (k: int)
    requires
        collected_all(states, steps, options, fields),
        0 <= n <= steps.len(),
        0 <= i < states[n].records.len(),
    ensures
        0 <= k < n,
        comes_from(states[n].records[i], steps[k], options, fields),
    decreases n,
{
    if n == 0 {
        0
    } else {
        let (m, next) = (states[n - 1], states[n]);
        assert(m.stepped(steps[n - 1], options, fields, next));
        if next.records == m.records {
            lemma_records_come_from_steps(states, steps, options, fields, n - 1, i)
        } else {
            let step = steps[n - 1];
            assert(step is Event);
            let (event, file, line) = (step->event, step->file, step->line);
            let record = choose|record: ContextRecord|
                is_record(record, event, options, fields, file, line) && #[trigger] is_placed(
                    next.records,
                    m.records,
                    record,
                );
            let before = m.records;
            let at = choose|at: int|
                {
                    &&& 0 <= at <= before.len()
                    &&& next.records == #[trigger] before.insert(at, record)
                    &&& forall|i: int| 0 <= i < at ==> !record_before(record, #[trigger] before[i])
                    &&& forall|i: int|
                        at <= i < before.len() ==> record_before(record, #[trigger] before[i])
                };
            if i < at {
                lemma_records_come_from_steps(states, steps, options, fields, n - 1, i)
            } else if i > at {
                lemma_records_come_from_steps(states, steps, options, fields, n - 1, i - 1)
            } else {
                n - 1
            }
        }
    }
}

/// Every record of a report is that of an event that was observed, of a selected peer and inside
/// the window of the report, both bounds included. None holds a value that the report says is not
/// available, and where the report says that no query values are included, none holds a query or
/// a referer.
pub proof fn reports_hold_only_what_was_asked_for(
    r: ContextReport,
    states: Seq<ContextModel>,
    steps: Seq<Step>,
    options: ContextOptions,
    fields: TelemetryCapabilities,
    i: int,
)
    requires
        collected_all(states, steps, options, fields),
        is_report(r, states.last(), options, fields),
        0 <= i < r.records@.len(),
    ensures
        exists|k: int|
            0 <= k < steps.len() && comes_from(
                r.records@[i],
                #[trigger] steps[k],
                options,
                fields,
            ),
        ({
            let record = r.records@[i];
            let available = r.field_availability;
            &&& parsed_address(record.source_ip@) matches Some(a)
                && r.selected_source_ips@.contains(a)
            &&& r.from matches Some(from) ==> !record.timestamp.before(from)
            &&& r.to matches Some(to) ==> !to.before(record.timestamp)
            &&& !r.query_values_included ==> record.uri_query is None && record.referer is None
            &&& !available.host ==> record.host is None
            &&& !available.user_agent ==> record.user_agent is None
            &&& !available.ja3 ==> record.ja3 is None
            &&& !available.ja4 ==> record.ja4 is None
            &&& !available.waf_action ==> record.waf_action is None
            &&& !available.waf_labels ==> record.waf_labels@.len() == 0
            &&& !available.referer ==> record.referer is None
            &&& !options.country_recorded ==> record.country is None
        }),
{
    let k = lemma_records_come_from_steps(
        states,
        steps,
        options,
        fields,
        steps.len() as int,
        i,
    );
    assert(comes_from(r.records@[i], steps[k], options, fields));
}

/// Without leave no record holds a query value or a referer.
pub proof fn query_values_need_leave(
    r: ContextRecord,
    e: WebEvent,
    options: ContextOptions,
    fields: TelemetryCapabilities,
    file: Seq<char>,
    line: u64,
)
    requires
        is_record(r, e, options, fields, file, line),
        !options.include_query,
    ensures
        r.uri_query is None,
        r.referer is None,
{
}

} // verus!
