//! Synthetic corpora: requests written as telemetry, with their ground truth.

use crate::access_log::{decoded, is_control};
use crate::json::{add_field, add_item, compact_text, no_fields, no_items, Json, JsonModel};
use crate::lab::{
    demo_events, demo_list, deterministic_events, deterministic_list, event_models, large_events,
    large_fits, large_list, mutation_events, mutation_list, times_fit, volume_event, volume_fits,
    volumetric_concentration_events, EventModel, Expected, GeneratorConfig, Profile,
    SyntheticEvent, SyntheticFormat, TruthRecord, JA4_COMMON, JA4_EXACT, JA4_SHARED, RATE_UNITS,
    VOLUMETRIC_CONCENTRATION_DURATION_MS, VOLUMETRIC_CONCENTRATION_EVENTS,
    VOLUMETRIC_CONCENTRATION_SOURCE_IPS,
};
use crate::text::{
    ascii_lowercase, chars_of, decimal, lower, push_decimal, same_text, signed_decimal, texts,
};
use std::fmt::Write;
use vstd::prelude::*;
use vstd::string::*;

verus! {

broadcast use vstd::string::group_string_axioms;

pub open spec fn named_header(h: (Seq<char>, Seq<char>)) -> JsonModel {
    JsonModel::Object(
        seq![("name"@, JsonModel::Text(h.0)), ("value"@, JsonModel::Text(h.1))],
    )
}

pub open spec fn header_items(headers: Seq<(Seq<char>, Seq<char>)>) -> Seq<JsonModel> {
    headers.map_values(|h: (Seq<char>, Seq<char>)| named_header(h))
}

pub open spec fn label_items(labels: Seq<Seq<char>>) -> Seq<JsonModel> {
    labels.map_values(
        |name: Seq<char>| JsonModel::Object(seq![("name"@, JsonModel::Text(name))]),
    )
}

/// A field, where there is a value for it.
pub open spec fn with_text(
    fields: Seq<(Seq<char>, JsonModel)>,
    name: Seq<char>,
    value: Option<Seq<char>>,
) -> Seq<(Seq<char>, JsonModel)> {
    match value {
        Some(text) => fields.push((name, JsonModel::Text(text))),
        None => fields,
    }
}

pub open spec fn text_field(
    fields: Seq<(Seq<char>, JsonModel)>,
    name: Seq<char>,
    value: Seq<char>,
) -> Seq<(Seq<char>, JsonModel)> {
    fields.push((name, JsonModel::Text(value)))
}

/// The request of a WAF record.
pub open spec fn request_json(e: EventModel) -> JsonModel {
    let f0: Seq<(Seq<char>, JsonModel)> = seq![];
    let f1 = with_text(f0, "args"@, e.args);
    let f2 = text_field(f1, "clientIp"@, e.source_ip);
    let f3 = text_field(f2, "country"@, "US"@);
    let f4 = f3.push(("headers"@, JsonModel::List(header_items(e.headers))));
    let f5 = text_field(f4, "httpMethod"@, e.method);
    let f6 = text_field(f5, "httpVersion"@, "HTTP/2.0"@);
    let f7 = text_field(f6, "requestId"@, e.id);
    JsonModel::Object(text_field(f7, "uri"@, e.path))
}

pub open spec fn counted_rule() -> JsonModel {
    JsonModel::Object(
        seq![
            ("action"@, JsonModel::Text("COUNT"@)),
            ("ruleId"@, JsonModel::Text("synthetic-count"@)),
        ],
    )
}

/// A request as a WAF record.
pub open spec fn waf_record(e: EventModel) -> JsonModel {
    let f0: Seq<(Seq<char>, JsonModel)> = seq![];
    let f1 = text_field(f0, "action"@, e.action);
    let f2 = f1.push(("formatVersion"@, JsonModel::Number(decimal(1))));
    let f3 = f2.push(("httpRequest"@, request_json(e)));
    let f4 = text_field(f3, "httpSourceId"@, "app/synthetic/0001"@);
    let f5 = text_field(f4, "httpSourceName"@, "ALB"@);
    let f6 = with_text(f5, "ja3Fingerprint"@, e.ja3);
    let f7 = with_text(f6, "ja4Fingerprint"@, e.ja4);
    let f8 = f7.push(("labels"@, JsonModel::List(label_items(e.labels))));
    let f9 = f8.push(("nonTerminatingMatchingRules"@, JsonModel::List(seq![counted_rule()])));
    let f10 = match e.status {
        Some(status) => f9.push(
            ("responseCodeSent"@, JsonModel::Number(decimal(status as nat))),
        ),
        None => f9,
    };
    let f11 = text_field(
        f10,
        "terminatingRuleId"@,
        if e.action == "BLOCK"@ {
            "synthetic-block"@
        } else {
            "Default_Action"@
        },
    );
    let f12 = text_field(f11, "terminatingRuleType"@, "REGULAR"@);
    let f13 = f12.push(("timestamp"@, JsonModel::Number(signed_decimal(e.timestamp))));
    JsonModel::Object(text_field(f13, "webaclId"@, "synthetic-web-acl"@))
}

fn add_text(fields: &mut Vec<(String, Json)>, name: &str, value: &str)
    ensures
        crate::json::field_models(final(fields)@) == text_field(
            crate::json::field_models(old(fields)@),
            name@,
            value@,
        ),
{
    add_field(fields, name, Json::text(value));
}

fn add_optional(fields: &mut Vec<(String, Json)>, name: &str, value: &Option<String>)
    ensures
        crate::json::field_models(final(fields)@) == with_text(
            crate::json::field_models(old(fields)@),
            name@,
            crate::text::opt_text(*value),
        ),
{
    if let Some(text) = value {
        add_field(fields, name, Json::text(text.as_str()));
    }
}

fn write_request(e: &SyntheticEvent) -> (r: Json)
    ensures
        r@ == request_json(e@),
{
    let mut headers = no_items();
    let ghost models = e@.headers;
    let mut i: usize = 0;
    while i < e.headers.len()
        invariant
            models == e@.headers,
            models.len() == e.headers@.len(),
            i <= e.headers@.len(),
            crate::json::item_models(headers@) == header_items(models).take(i as int),
        decreases e.headers.len() - i,
    {
        let mut fields = no_fields();
        add_text(&mut fields, "name", e.headers[i].0.as_str());
        add_text(&mut fields, "value", e.headers[i].1.as_str());
        proof {
            assert(models[i as int] == (e.headers@[i as int].0@, e.headers@[i as int].1@));
            assert(crate::json::field_models(fields@) =~= seq![
                ("name"@, JsonModel::Text(models[i as int].0)),
                ("value"@, JsonModel::Text(models[i as int].1)),
            ]);
            assert(header_items(models).take(i + 1) =~= header_items(models).take(i as int).push(
                header_items(models)[i as int],
            ));
        }
        add_item(&mut headers, Json::object(fields));
        i = i + 1;
    }
    assert(header_items(models).take(i as int) =~= header_items(models));
    let mut fields = no_fields();
    add_optional(&mut fields, "args", &e.args);
    add_text(&mut fields, "clientIp", e.source_ip.as_str());
    add_text(&mut fields, "country", "US");
    add_field(&mut fields, "headers", Json::list(headers));
    add_text(&mut fields, "httpMethod", e.method.as_str());
    add_text(&mut fields, "httpVersion", "HTTP/2.0");
    add_text(&mut fields, "requestId", e.id.as_str());
    add_text(&mut fields, "uri", e.path.as_str());
    Json::object(fields)
}

fn write_labels(labels: &Vec<String>) -> (r: Json)
    ensures
        r@ == JsonModel::List(label_items(texts(labels@))),
{
    let mut items = no_items();
    let ghost names = texts(labels@);
    let mut i: usize = 0;
    while i < labels.len()
        invariant
            names == texts(labels@),
            i <= labels@.len(),
            crate::json::item_models(items@) == label_items(names).take(i as int),
        decreases labels.len() - i,
    {
        let mut fields = no_fields();
        add_text(&mut fields, "name", labels[i].as_str());
        proof {
            assert(crate::json::field_models(fields@) =~= seq![
                ("name"@, JsonModel::Text(names[i as int])),
            ]);
            assert(label_items(names).take(i + 1) =~= label_items(names).take(i as int).push(
                label_items(names)[i as int],
            ));
        }
        add_item(&mut items, Json::object(fields));
        i = i + 1;
    }
    assert(label_items(names).take(i as int) =~= label_items(names));
    Json::list(items)
}

fn counted_rules() -> (r: Json)
    ensures
        r@ == JsonModel::List(seq![counted_rule()]),
{
    let mut fields = no_fields();
    add_text(&mut fields, "action", "COUNT");
    add_text(&mut fields, "ruleId", "synthetic-count");
    assert(crate::json::field_models(fields@) =~= seq![
        ("action"@, JsonModel::Text("COUNT"@)),
        ("ruleId"@, JsonModel::Text("synthetic-count"@)),
    ]);
    let mut items = no_items();
    add_item(&mut items, Json::object(fields));
    assert(crate::json::item_models(items@) =~= seq![counted_rule()]);
    Json::list(items)
}

/// The first header with a name, whatever the case of its letters.
pub open spec fn first_header(headers: Seq<(Seq<char>, Seq<char>)>, name: Seq<char>) -> Seq<char>
    decreases headers.len(),
{
    if headers.len() == 0 {
        "-"@
    } else if lower(headers[0].0) == lower(name) {
        headers[0].1
    } else {
        first_header(headers.skip(1), name)
    }
}

/// A value of an access log: quotes and backslashes escaped.
pub open spec fn escaped(value: Seq<char>) -> Seq<char>
    decreases value.len(),
{
    if value.len() == 0 {
        seq![]
    } else {
        let before = escaped(value.drop_last());
        if value.last() == '\\' || value.last() == '"' {
            before.push('\\').push(value.last())
        } else {
            before.push(value.last())
        }
    }
}

/// How a character is written in a quoted field.
spec fn escaped_char(c: char) -> Seq<char> {
    if c == '\\' || c == '"' {
        seq!['\\', c]
    } else {
        seq![c]
    }
}

proof fn lemma_escaped_first(value: Seq<char>)
    requires
        value.len() > 0,
    ensures
        escaped(value) == escaped_char(value[0]) + escaped(value.skip(1)),
    decreases value.len(),
{
    let rest = value.skip(1);
    if value.len() == 1 {
        assert(value.drop_last() =~= Seq::<char>::empty());
        assert(rest =~= Seq::<char>::empty());
        assert(escaped(value) =~= escaped_char(value[0]) + escaped(rest));
    } else {
        let head = value.drop_last();
        lemma_escaped_first(head);
        assert(head.skip(1) =~= rest.drop_last());
        assert(escaped(value) =~= escaped_char(value[0]) + escaped(rest));
    }
}

/// Reading a quoted field undoes writing it: what comes back is the value that was written, unless
/// a control character stands in it, which no field may hold.
pub proof fn decoding_undoes_escaping(value: Seq<char>)
    ensures
        decoded(escaped(value)) == (if exists|i: int|
            0 <= i < value.len() && is_control(#[trigger] value[i]) {
            None
        } else {
            Some(value)
        }),
    decreases value.len(),
{
    if value.len() > 0 {
        let rest = value.skip(1);
        let (c, written) = (value[0], escaped(value));
        lemma_escaped_first(value);
        decoding_undoes_escaping(rest);
        assert(seq![c] + rest =~= value);
        if c == '\\' || c == '"' {
            assert(written[0] == '\\' && written[1] == c);
            assert(written.skip(2) =~= escaped(rest));
        } else {
            assert(written[0] == c);
            assert(written.skip(1) =~= escaped(rest));
        }
        if exists|i: int| 0 <= i < value.len() && is_control(#[trigger] value[i]) {
            let i = choose|i: int| 0 <= i < value.len() && is_control(#[trigger] value[i]);
            if i > 0 {
                assert(rest[i - 1] == value[i]);
            }
        }
        if exists|i: int| 0 <= i < rest.len() && is_control(#[trigger] rest[i]) {
            let i = choose|i: int| 0 <= i < rest.len() && is_control(#[trigger] rest[i]);
            assert(value[i + 1] == rest[i]);
        }
    }
}

fn escape(value: &str) -> (r: String)
    ensures
        r@ == escaped(value@),
{
    let chars = chars_of(value);
    let mut r = String::new();
    let mut i: usize = 0;
    while i < chars.len()
        invariant
            chars@ == value@,
            i <= chars@.len(),
            r@ == escaped(value@.take(i as int)),
        decreases chars.len() - i,
    {
        let c = chars[i];
        assert(value@.take(i + 1).drop_last() =~= value@.take(i as int));
        if c == '\\' || c == '"' {
            r.push('\\');
        }
        r.push(c);
        i = i + 1;
    }
    assert(value@.take(i as int) =~= value@);
    r
}

/// How an access log writes a point in time, which is always in UTC.
pub const ACCESS_TIME_FORMAT: &'static str = "%d/%b/%Y:%H:%M:%S +0000";

/// How a point in time, in milliseconds, is written in a `strftime` format; none where it cannot
/// be represented or the format is not one.
pub uninterp spec fn time_text(milliseconds: i64, format: Seq<char>) -> Option<Seq<char>>;

/// Writes a time with `chrono::DateTime::from_timestamp_millis` and `chrono::DateTime::format`.
/// The result is a function of the milliseconds and the format.
#[verifier::external_body]
fn write_time(milliseconds: i64, format: &str) -> (r: Option<String>)
    ensures
        crate::text::opt_text(r) == time_text(milliseconds, format@),
{
    let time = chrono::DateTime::from_timestamp_millis(milliseconds)?;
    let mut text = String::new();
    write!(text, "{}", time.format(format)).ok()?;
    Some(text)
}

/// A point in time, in milliseconds, as an access log writes it.
pub open spec fn access_time(milliseconds: i64) -> Option<Seq<char>> {
    time_text(milliseconds, ACCESS_TIME_FORMAT@)
}

pub open spec fn target_of(e: EventModel) -> Seq<char> {
    match e.args {
        Some(query) => e.path + "?"@ + query,
        None => e.path,
    }
}

pub open spec fn status_of(e: EventModel) -> nat {
    match e.status {
        Some(status) => status as nat,
        None => 200,
    }
}

/// A request as a line of an access log, given its time as written.
pub open spec fn combined_text(e: EventModel, time: Seq<char>) -> Seq<char> {
    e.source_ip + " - - ["@ + time + "] \""@ + e.method + " "@ + escaped(target_of(e))
        + " HTTP/1.1\" "@ + decimal(status_of(e)) + " 0 \""@ + escaped(
        first_header(e.headers, "Referer"@),
    ) + "\" \""@ + escaped(first_header(e.headers, "User-Agent"@)) + "\""@
}

/// A request in a telemetry format; none where its time cannot be written.
pub open spec fn line_of(e: EventModel, format: SyntheticFormat) -> Option<Seq<char>> {
    match format {
        SyntheticFormat::AwsWaf => Some(compact_text(waf_record(e))),
        _ => match access_time(e.timestamp as i64) {
            Some(time) => Some(combined_text(e, time)),
            None => None,
        },
    }
}

impl SyntheticEvent {
    /// The ground truth of a request.
    pub fn truth(&self) -> (r: TruthRecord)
        ensures
            is_truth(r, self@),
    {
        let cves: Vec<String> = Vec::new();
        TruthRecord {
            event_id: self.id.clone(),
            expected: Expected {
                class: self.class,
                cves,
                expected_match: self.expected_rule_ids.len() > 0,
                expected_rule_ids: crate::event::copy_texts(&self.expected_rule_ids),
            },
        }
    }

    /// The request as a WAF record.
    pub fn write_json(&self) -> (r: String)
        ensures
            r@ == compact_text(waf_record(self@)),
    {
        let mut fields = no_fields();
        add_text(&mut fields, "action", self.action.as_str());
        add_field(&mut fields, "formatVersion", Json::number(1));
        add_field(&mut fields, "httpRequest", write_request(self));
        add_text(&mut fields, "httpSourceId", "app/synthetic/0001");
        add_text(&mut fields, "httpSourceName", "ALB");
        add_optional(&mut fields, "ja3Fingerprint", &self.ja3);
        add_optional(&mut fields, "ja4Fingerprint", &self.ja4);
        add_field(&mut fields, "labels", write_labels(&self.labels));
        add_field(&mut fields, "nonTerminatingMatchingRules", counted_rules());
        if let Some(status) = self.response_status {
            add_field(&mut fields, "responseCodeSent", Json::number(status as u64));
        }
        let rule = if same_text(self.action.as_str(), "BLOCK") {
            "synthetic-block"
        } else {
            "Default_Action"
        };
        add_text(&mut fields, "terminatingRuleId", rule);
        add_text(&mut fields, "terminatingRuleType", "REGULAR");
        add_field(&mut fields, "timestamp", Json::signed(self.timestamp));
        add_text(&mut fields, "webaclId", "synthetic-web-acl");
        Json::object(fields).compact()
    }

    fn header(&self, name: &str) -> (r: &str)
        ensures
            r@ == first_header(self@.headers, name@),
    {
        let ghost models = self@.headers;
        let wanted = ascii_lowercase(name);
        let mut i: usize = 0;
        assert(models.skip(0) =~= models);
        while i < self.headers.len()
            invariant
                models == self@.headers,
                models.len() == self.headers@.len(),
                wanted@ == lower(name@),
                i <= self.headers@.len(),
                first_header(models, name@) == first_header(models.skip(i as int), name@),
            decreases self.headers.len() - i,
        {
            let h = &self.headers[i];
            proof {
                assert(models[i as int] == (h.0@, h.1@));
                assert(models.skip(i as int)[0] == models[i as int]);
                assert(models.skip(i as int).skip(1) =~= models.skip(i + 1));
            }
            if same_text(ascii_lowercase(h.0.as_str()).as_str(), wanted.as_str()) {
                return h.1.as_str();
            }
            i = i + 1;
        }
        "-"
    }

    /// The request as a line of an access log, given its time as written.
    pub fn combined_line(&self, time: &str) -> (r: String)
        ensures
            r@ == combined_text(self@, time@),
    {
        let mut target = self.path.clone();
        if let Some(query) = &self.args {
            target.append("?");
            target.append(query.as_str());
        }
        let mut r = self.source_ip.clone();
        r.append(" - - [");
        r.append(time);
        r.append("] \"");
        r.append(self.method.as_str());
        r.append(" ");
        r.append(escape(target.as_str()).as_str());
        r.append(" HTTP/1.1\" ");
        let status: u64 = match self.response_status {
            Some(status) => status as u64,
            None => 200,
        };
        push_decimal(&mut r, status);
        r.append(" 0 \"");
        r.append(escape(self.header("Referer")).as_str());
        r.append("\" \"");
        r.append(escape(self.header("User-Agent")).as_str());
        r.append("\"");
        r
    }

    /// The request as a line of an access log; none where its time cannot be written.
    pub fn write_combined(&self) -> (r: Option<String>)
        ensures
            crate::text::opt_text(r) == (match access_time(self.timestamp) {
                Some(time) => Some(combined_text(self@, time)),
                None => None,
            }),
    {
        match write_time(self.timestamp, ACCESS_TIME_FORMAT) {
            Some(time) => Some(self.combined_line(time.as_str())),
            None => None,
        }
    }

    /// The request in a telemetry format.
    pub fn write(&self, format: SyntheticFormat) -> (r: Option<String>)
        ensures
            crate::text::opt_text(r) == line_of(self@, format),
    {
        match format {
            SyntheticFormat::AwsWaf => Some(self.write_json()),
            _ => self.write_combined(),
        }
    }
}

/// Whether a record is the ground truth of a request: a match is expected where a rule is.
pub open spec fn is_truth(r: TruthRecord, e: EventModel) -> bool {
    &&& r.event_id@ == e.id
    &&& r.expected.class == e.class
    &&& r.expected.cves@.len() == 0
    &&& texts(r.expected.expected_rule_ids@) == e.rules
    &&& r.expected.expected_match == (e.rules.len() > 0)
}

#[derive(Clone, Debug)]
pub struct Manifest {
    pub generator_version: String,
    pub profile: Profile,
    pub seed: u64,
    pub events_requested: usize,
    pub valid_events: usize,
    pub expected_parser_errors: usize,
    pub attack_units: u64,
    pub hosts: usize,
    pub source_ips: usize,
    pub start_timestamp_ms: i64,
    pub duration_ms: i64,
    /// In the order of the names.
    pub ja4_distribution: Vec<(String, String)>,
    pub rule_revision: String,
    pub telemetry_format: SyntheticFormat,
}

/// A corpus: its lines, the ground truth of each valid one, and its manifest.
#[derive(Clone, Debug)]
pub struct GenerateResult {
    pub lines: Vec<String>,
    pub truth: Vec<TruthRecord>,
    pub manifest: Manifest,
}

/// Why no corpus was made.
#[derive(Clone, Copy, Debug, PartialEq, Eq, Structural)]
pub enum GenerateError {
    AttackRate,
    NoHostsOrSources,
    VolumeEvents,
    VolumeDuration,
    /// A time cannot be counted or written.
    Timestamp,
}

impl GenerateError {
    pub fn message(&self) -> (r: &'static str)
        ensures
            r@ == match self {
                GenerateError::AttackRate => "attack rate must be between 0 and 1"@,
                GenerateError::NoHostsOrSources => "hosts and source IPs must be positive"@,
                GenerateError::VolumeEvents =>
                    "volumetric-concentration requires exactly 40000 events to preserve its documented shape"@,
                GenerateError::VolumeDuration =>
                    "volumetric-concentration requires duration-ms=3600000 to preserve its documented minute-rate shape"@,
                GenerateError::Timestamp => "synthetic timestamp is out of range"@,
            },
    {
        match self {
            GenerateError::AttackRate => "attack rate must be between 0 and 1",
            GenerateError::NoHostsOrSources => "hosts and source IPs must be positive",
            GenerateError::VolumeEvents =>
                "volumetric-concentration requires exactly 40000 events to preserve its documented shape",
            GenerateError::VolumeDuration =>
                "volumetric-concentration requires duration-ms=3600000 to preserve its documented minute-rate shape",
            GenerateError::Timestamp => "synthetic timestamp is out of range",
        }
    }
}

pub open spec fn is_volume(config: GeneratorConfig) -> bool {
    config.profile == Profile::VolumetricConcentration
}

/// The first rule that a configuration breaks.
pub open spec fn refusal(config: GeneratorConfig) -> Option<GenerateError> {
    if config.attack_units > RATE_UNITS {
        Some(GenerateError::AttackRate)
    } else if config.hosts == 0 || config.source_ips == 0 {
        Some(GenerateError::NoHostsOrSources)
    } else if is_volume(config) && config.events != VOLUMETRIC_CONCENTRATION_EVENTS {
        Some(GenerateError::VolumeEvents)
    } else if is_volume(config) && config.duration_ms != VOLUMETRIC_CONCENTRATION_DURATION_MS {
        Some(GenerateError::VolumeDuration)
    } else {
        None
    }
}

pub fn check_config(config: &GeneratorConfig) -> (r: Result<(), GenerateError>)
    ensures
        match r {
            Ok(_) => refusal(*config) is None,
            Err(e) => refusal(*config) == Some(e),
        },
{
    let volume = match config.profile {
        Profile::VolumetricConcentration => true,
        _ => false,
    };
    if config.attack_units > RATE_UNITS {
        Err(GenerateError::AttackRate)
    } else if config.hosts == 0 || config.source_ips == 0 {
        Err(GenerateError::NoHostsOrSources)
    } else if volume && config.events != VOLUMETRIC_CONCENTRATION_EVENTS {
        Err(GenerateError::VolumeEvents)
    } else if volume && config.duration_ms != VOLUMETRIC_CONCENTRATION_DURATION_MS {
        Err(GenerateError::VolumeDuration)
    } else {
        Ok(())
    }
}

/// Whether the times, and the seed of the volume profile, stay within the range of the machine.
pub open spec fn in_range(config: GeneratorConfig) -> bool {
    match config.profile {
        Profile::Deterministic => times_fit(config, 15),
        Profile::Mutations => times_fit(config, 6),
        Profile::Demo => times_fit(config, 11),
        Profile::Large => large_fits(config),
        Profile::VolumetricConcentration => volume_fits(config),
    }
}

/// Whether the times, and the seed of the volume profile, stay within the range of the machine.
pub fn fits(config: &GeneratorConfig) -> (r: bool)
    ensures
        r == in_range(*config),
{
    let start = config.start_timestamp_ms as i128;
    let top = i64::MAX as i128;
    match config.profile {
        Profile::Deterministic => start + 15_000 <= top,
        Profile::Mutations => start + 6_000 <= top,
        Profile::Demo => start + 11_000 <= top,
        Profile::Large => {
            let width: i128 = if config.duration_ms < 1 {
                1
            } else {
                config.duration_ms as i128
            };
            config.hosts > 0 && config.source_ips > 0 && start + config.events as i128 * 1000 <= top
                && i64::MIN as i128 <= start - (width - 1) && start + (width - 1) <= top
        },
        Profile::VolumetricConcentration => config.hosts > 0 && config.seed <= u64::MAX - 39_999
            && start + 40_000_000 <= top,
    }
}

/// The requests of a configuration.
pub open spec fn events_of(config: GeneratorConfig) -> Seq<EventModel> {
    let start = config.start_timestamp_ms as int;
    match config.profile {
        Profile::Deterministic => deterministic_list(start),
        Profile::Mutations => mutation_list(start),
        Profile::Demo => demo_list(start),
        Profile::Large => large_list(config, config.events as nat).0,
        Profile::VolumetricConcentration => Seq::new(
            VOLUMETRIC_CONCENTRATION_EVENTS as nat,
            |k: int| volume_event(config, k),
        ),
    }
}

/// Whether a profile ends with a line that cannot be read.
pub open spec fn ends_malformed(profile: Profile) -> bool {
    profile == Profile::Deterministic || profile == Profile::Mutations
}

pub open spec fn malformed_line(format: SyntheticFormat) -> Seq<char> {
    match format {
        SyntheticFormat::AwsWaf => "{\"timestamp\":broken}"@,
        _ => "malformed combined line"@,
    }
}

pub fn events_for(config: &GeneratorConfig) -> (r: Vec<SyntheticEvent>)
    requires
        in_range(*config),
    ensures
        event_models(r@) == events_of(*config),
{
    match config.profile {
        Profile::Deterministic => deterministic_events(config),
        Profile::Mutations => mutation_events(config),
        Profile::Demo => demo_events(config),
        Profile::Large => large_events(config),
        Profile::VolumetricConcentration => {
            let events = volumetric_concentration_events(config);
            assert(event_models(events@) =~= events_of(*config));
            events
        },
    }
}

/// Whether a manifest describes a corpus.
pub open spec fn is_manifest(
    m: Manifest,
    config: GeneratorConfig,
    format: SyntheticFormat,
    version: Seq<char>,
    events: nat,
) -> bool {
    &&& m.generator_version@ == version
    &&& m.profile == config.profile
    &&& m.seed == config.seed
    &&& m.events_requested == if is_volume(config) {
        events
    } else {
        config.events as nat
    }
    &&& m.valid_events == events
    &&& m.expected_parser_errors == if ends_malformed(config.profile) {
        1nat
    } else {
        0nat
    }
    &&& m.attack_units == if is_volume(config) {
        0
    } else {
        config.attack_units
    }
    &&& m.hosts == config.hosts
    &&& m.source_ips == if is_volume(config) {
        VOLUMETRIC_CONCENTRATION_SOURCE_IPS
    } else {
        config.source_ips
    }
    &&& m.start_timestamp_ms == config.start_timestamp_ms
    &&& m.duration_ms == config.duration_ms
    &&& crate::lab::header_texts(m.ja4_distribution@) == seq![
        ("common"@, JA4_COMMON@),
        ("malicious_only"@, JA4_EXACT@),
        ("shared"@, JA4_SHARED@),
    ]
    &&& m.rule_revision@ == "project-native-tests"@
    &&& m.telemetry_format == format
}

fn manifest_for(config: &GeneratorConfig, format: SyntheticFormat, version: &str, events: usize) -> (r:
    Manifest)
    ensures
        is_manifest(r, *config, format, version@, events as nat),
{
    let volume = match config.profile {
        Profile::VolumetricConcentration => true,
        _ => false,
    };
    let malformed: usize = match config.profile {
        Profile::Deterministic => 1,
        Profile::Mutations => 1,
        _ => 0,
    };
    let mut ja4: Vec<(String, String)> = Vec::new();
    ja4.push(("common".to_owned(), JA4_COMMON.to_owned()));
    ja4.push(("malicious_only".to_owned(), JA4_EXACT.to_owned()));
    ja4.push(("shared".to_owned(), JA4_SHARED.to_owned()));
    assert(crate::lab::header_texts(ja4@) =~= seq![
        ("common"@, JA4_COMMON@),
        ("malicious_only"@, JA4_EXACT@),
        ("shared"@, JA4_SHARED@),
    ]);
    Manifest {
        generator_version: version.to_owned(),
        profile: config.profile,
        seed: config.seed,
        events_requested: if volume {
            events
        } else {
            config.events
        },
        valid_events: events,
        expected_parser_errors: malformed,
        attack_units: if volume {
            0
        } else {
            config.attack_units
        },
        hosts: config.hosts,
        source_ips: if volume {
            VOLUMETRIC_CONCENTRATION_SOURCE_IPS
        } else {
            config.source_ips
        },
        start_timestamp_ms: config.start_timestamp_ms,
        duration_ms: config.duration_ms,
        ja4_distribution: ja4,
        rule_revision: "project-native-tests".to_owned(),
        telemetry_format: format,
    }
}

/// The lines of requests; none where the time of one cannot be written.
pub open spec fn lines_of(events: Seq<EventModel>, format: SyntheticFormat) -> Option<
    Seq<Seq<char>>,
>
    decreases events.len(),
{
    if events.len() == 0 {
        Some(seq![])
    } else {
        match (lines_of(events.drop_last(), format), line_of(events.last(), format)) {
            (Some(before), Some(line)) => Some(before.push(line)),
            _ => None,
        }
    }
}

/// The lines of a corpus.
pub open spec fn corpus_lines(
    events: Seq<EventModel>,
    config: GeneratorConfig,
    format: SyntheticFormat,
) -> Option<Seq<Seq<char>>> {
    match lines_of(events, format) {
        Some(lines) => Some(
            if ends_malformed(config.profile) {
                lines.push(malformed_line(format))
            } else {
                lines
            },
        ),
        None => None,
    }
}

proof fn lemma_lines_prefix(events: Seq<EventModel>, format: SyntheticFormat, n: int)
    requires
        0 <= n <= events.len(),
        lines_of(events.take(n), format) is None,
    ensures
        lines_of(events, format) is None,
    decreases events.len() - n,
{
    if n == events.len() {
        assert(events.take(n) =~= events);
    } else {
        assert(events.take(n + 1).drop_last() =~= events.take(n));
        lemma_lines_prefix(events, format, n + 1);
    }
}

/// Whether a result is the corpus of some requests.
pub open spec fn is_corpus(
    r: GenerateResult,
    events: Seq<EventModel>,
    config: GeneratorConfig,
    format: SyntheticFormat,
    version: Seq<char>,
) -> bool {
    &&& corpus_lines(events, config, format) == Some(texts(r.lines@))
    &&& r.truth@.len() == events.len()
    &&& forall|i: int| 0 <= i < events.len() ==> is_truth(#[trigger] r.truth@[i], events[i])
    &&& is_manifest(r.manifest, config, format, version, events.len())
}

/// The corpus of some requests.
pub fn corpus_of(
    events: &Vec<SyntheticEvent>,
    config: &GeneratorConfig,
    format: SyntheticFormat,
    version: &str,
) -> (r: Option<GenerateResult>)
    ensures
        match r {
            Some(result) => is_corpus(
                result,
                event_models(events@),
                *config,
                format,
                version@,
            ),
            None => corpus_lines(event_models(events@), *config, format) is None,
        },
{
    let ghost models = event_models(events@);
    let mut lines: Vec<String> = Vec::new();
    let mut truth: Vec<TruthRecord> = Vec::new();
    assert(texts(lines@) =~= Seq::<Seq<char>>::empty());
    let mut i: usize = 0;
    while i < events.len()
        invariant
            models == event_models(events@),
            i <= events@.len(),
            lines_of(models.take(i as int), format) == Some(texts(lines@)),
            truth@.len() == i,
            forall|j: int| 0 <= j < i ==> is_truth(#[trigger] truth@[j], models[j]),
        decreases events.len() - i,
    {
        let e = &events[i];
        proof {
            assert(models.take(i + 1).drop_last() =~= models.take(i as int));
            assert(models.take(i + 1).last() == e@);
        }
        match e.write(format) {
            Some(line) => {
                let ghost before = lines@;
                let ghost text = line@;
                lines.push(line);
                assert(texts(lines@) =~= texts(before).push(text));
            },
            None => {
                proof {
                    lemma_lines_prefix(models, format, i + 1);
                }
                return None;
            },
        }
        truth.push(e.truth());
        i = i + 1;
    }
    assert(models.take(i as int) =~= models);
    let malformed = match config.profile {
        Profile::Deterministic => true,
        Profile::Mutations => true,
        _ => false,
    };
    if malformed {
        let ghost before = lines@;
        let line = match format {
            SyntheticFormat::AwsWaf => "{\"timestamp\":broken}",
            _ => "malformed combined line",
        };
        lines.push(line.to_owned());
        assert(texts(lines@) =~= texts(before).push(line@));
    }
    Some(
        GenerateResult { lines, truth, manifest: manifest_for(config, format, version, events.len()) },
    )
}

/// Makes a corpus in a telemetry format.
pub fn generate_for_format(config: &GeneratorConfig, format: SyntheticFormat, version: &str) -> (r:
    Result<GenerateResult, GenerateError>)
    requires
        refusal(*config) is None ==> in_range(*config),
    ensures
        match r {
            Ok(result) => refusal(*config) is None && is_corpus(
                result,
                events_of(*config),
                *config,
                format,
                version@,
            ),
            Err(GenerateError::Timestamp) => refusal(*config) is None && corpus_lines(
                events_of(*config),
                *config,
                format,
            ) is None,
            Err(e) => refusal(*config) == Some(e),
        },
{
    match check_config(config) {
        Ok(_) => {},
        Err(e) => {
            return Err(e);
        },
    }
    let events = events_for(config);
    match corpus_of(&events, config, format, version) {
        Some(result) => Ok(result),
        None => Err(GenerateError::Timestamp),
    }
}

/// Makes a corpus of WAF records.
pub fn generate(config: &GeneratorConfig, version: &str) -> (r: Result<
    GenerateResult,
    GenerateError,
>)
    requires
        refusal(*config) is None ==> in_range(*config),
    ensures
        match r {
            Ok(result) => refusal(*config) is None && is_corpus(
                result,
                events_of(*config),
                *config,
                SyntheticFormat::AwsWaf,
                version@,
            ),
            Err(e) => refusal(*config) == Some(e),
        },
{
    let r = generate_for_format(config, SyntheticFormat::AwsWaf, version);
    proof {
        lemma_waf_lines(events_of(*config));
    }
    r
}

proof fn lemma_waf_lines(events: Seq<EventModel>)
    ensures
        lines_of(events, SyntheticFormat::AwsWaf) is Some,
    decreases events.len(),
{
    if events.len() > 0 {
        lemma_waf_lines(events.drop_last());
    }
}

/// The ground truth of a corpus does not depend on the telemetry format.
pub proof fn truth_ignores_the_format(
    a: GenerateResult,
    b: GenerateResult,
    events: Seq<EventModel>,
    config: GeneratorConfig,
    first: SyntheticFormat,
    second: SyntheticFormat,
    version: Seq<char>,
    i: int,
)
    requires
        is_corpus(a, events, config, first, version),
        is_corpus(b, events, config, second, version),
        0 <= i < events.len(),
    ensures
        a.truth@.len() == b.truth@.len(),
        a.truth@[i].event_id@ == b.truth@[i].event_id@,
        a.truth@[i].expected.class == b.truth@[i].expected.class,
        texts(a.truth@[i].expected.expected_rule_ids@) == texts(
            b.truth@[i].expected.expected_rule_ids@,
        ),
{
    assert(is_truth(a.truth@[i], events[i]));
    assert(is_truth(b.truth@[i], events[i]));
}

/// A request is expected to be found where a rule is expected to find it.
pub proof fn expectations_agree(r: TruthRecord, e: EventModel)
    requires
        is_truth(r, e),
    ensures
        r.expected.expected_match == (r.expected.expected_rule_ids@.len() > 0),
{
    assert(texts(r.expected.expected_rule_ids@).len() == r.expected.expected_rule_ids@.len());
}

} // verus!
