//! Threat-intelligence documents from the artifacts of a run.
//!
//! By default only sanitized aggregates are used. Observed addresses and paths need leave. No
//! document identifies an actor or a campaign.

use crate::comparison::{number_or_zero, opt_json, text_at};
use crate::digest::{digest, digest_text, hex, hex_has_two_digits_for_each_byte, hex_text, sha256, sha256_of};
use crate::json::{
    add_field, add_item, compact_text, field2, field_of, item_models, json_from_text, no_fields,
    no_items, Json, JsonModel,
};
use crate::json_order::{field_order_orders, in_field_order, sort_by_fields};
use crate::network::{parsed_address, Address};
use crate::ordered::{ordered_texts, TextSet};
use crate::text::{chars_of, decimal, push_decimal, text_between, texts};
use vstd::prelude::*;
use vstd::string::*;
use vstd::utf8::encode_utf8;

verus! {

broadcast use vstd::string::group_string_axioms;

#[derive(Clone, Copy, Debug, PartialEq, Eq, Structural)]
pub enum CtiExportFormat {
    Stix,
    Misp,
}

#[derive(Clone, Copy, Debug, PartialEq, Eq, Structural)]
pub enum TlpLevel {
    Clear,
    Green,
    Amber,
    Red,
}

impl TlpLevel {
    pub open spec fn name(self) -> Seq<char> {
        match self {
            TlpLevel::Clear => "clear"@,
            TlpLevel::Green => "green"@,
            TlpLevel::Amber => "amber"@,
            TlpLevel::Red => "red"@,
        }
    }

    pub fn label(self) -> (r: &'static str)
        ensures
            r@ == self.name(),
    {
        match self {
            TlpLevel::Clear => "clear",
            TlpLevel::Green => "green",
            TlpLevel::Amber => "amber",
            TlpLevel::Red => "red",
        }
    }

    pub open spec fn marking(self) -> Seq<char> {
        match self {
            TlpLevel::Clear => "TLP:CLEAR"@,
            TlpLevel::Green => "TLP:GREEN"@,
            TlpLevel::Amber => "TLP:AMBER"@,
            TlpLevel::Red => "TLP:RED"@,
        }
    }

    /// The canonical name of the marking.
    pub fn marking_name(self) -> (r: &'static str)
        ensures
            r@ == self.marking(),
    {
        match self {
            TlpLevel::Clear => "TLP:CLEAR",
            TlpLevel::Green => "TLP:GREEN",
            TlpLevel::Amber => "TLP:AMBER",
            TlpLevel::Red => "TLP:RED",
        }
    }
}

/// The marking of a document: the chosen one, else red with observables and amber without.
pub open spec fn marking_for(chosen: Option<TlpLevel>, include_observables: bool) -> TlpLevel {
    match chosen {
        Some(level) => level,
        None => if include_observables {
            TlpLevel::Red
        } else {
            TlpLevel::Amber
        },
    }
}

pub fn effective_tlp(chosen: Option<TlpLevel>, include_observables: bool) -> (r: TlpLevel)
    ensures
        r == marking_for(chosen, include_observables),
{
    match chosen {
        Some(level) => level,
        None => if include_observables {
            TlpLevel::Red
        } else {
            TlpLevel::Amber
        },
    }
}

/// What private findings name.
#[derive(Debug)]
pub struct PrivateObservables {
    pub source_ips: TextSet,
    pub uri_paths: TextSet,
    pub malformed_findings: u64,
    pub invalid_source_ips: u64,
}

/// The contents of `PrivateObservables`.
pub struct ObservableModel {
    pub source_ips: Set<Seq<char>>,
    pub uri_paths: Set<Seq<char>>,
    pub malformed: nat,
    pub invalid: nat,
}

impl View for PrivateObservables {
    type V = ObservableModel;

    open spec fn view(&self) -> ObservableModel {
        ObservableModel {
            source_ips: self.source_ips@,
            uri_paths: self.uri_paths@,
            malformed: self.malformed_findings as nat,
            invalid: self.invalid_source_ips as nat,
        }
    }
}

impl ObservableModel {
    pub open spec fn none() -> ObservableModel {
        ObservableModel {
            source_ips: Set::empty(),
            uri_paths: Set::empty(),
            malformed: 0,
            invalid: 0,
        }
    }

    /// What is known with one more finding. An address that cannot be read is counted only.
    pub open spec fn with(self, finding: Option<JsonModel>) -> ObservableModel {
        match finding {
            None => ObservableModel { malformed: self.malformed + 1, ..self },
            Some(j) => {
                let ip = text_at(field_of(j, "source_ip"@));
                let path = text_at(field_of(j, "uri_path"@));
                let readable = ip is Some && parsed_address(ip.unwrap()) is Some;
                ObservableModel {
                    source_ips: if readable {
                        self.source_ips.insert(ip.unwrap())
                    } else {
                        self.source_ips
                    },
                    uri_paths: match path {
                        Some(p) => self.uri_paths.insert(p),
                        None => self.uri_paths,
                    },
                    malformed: self.malformed,
                    invalid: self.invalid + if ip is Some && !readable {
                        1nat
                    } else {
                        0nat
                    },
                }
            },
        }
    }
}

/// What a list of findings names.
pub open spec fn observables_of(findings: Seq<Option<JsonModel>>) -> ObservableModel
    decreases findings.len(),
{
    if findings.len() == 0 {
        ObservableModel::none()
    } else {
        observables_of(findings.drop_last()).with(findings.last())
    }
}

/// The documents of a list of lines.
pub open spec fn parsed_lines(lines: Seq<Seq<char>>) -> Seq<Option<JsonModel>> {
    lines.map_values(|line: Seq<char>| json_from_text(line))
}

impl PrivateObservables {
    pub open spec fn wf(&self) -> bool {
        self.source_ips.wf() && self.uri_paths.wf()
    }

    pub fn none() -> (r: Self)
        ensures
            r.wf(),
            r@ == ObservableModel::none(),
    {
        PrivateObservables {
            source_ips: TextSet::new(),
            uri_paths: TextSet::new(),
            malformed_findings: 0,
            invalid_source_ips: 0,
        }
    }

    /// Adds a finding, or one that could not be read.
    pub fn add(&mut self, finding: Option<&Json>)
        requires
            old(self).wf(),
            old(self)@.malformed < u64::MAX,
            old(self)@.invalid < u64::MAX,
        ensures
            final(self).wf(),
            final(self)@ == old(self)@.with(opt_json(finding)),
    {
        let finding = match finding {
            Some(finding) => finding,
            None => {
                self.malformed_findings = self.malformed_findings + 1;
                return;
            },
        };
        if let Some(value) = finding.get("source_ip") {
            if let Some(ip) = value.as_text() {
                if Address::parse(ip.as_str()).is_some() {
                    self.source_ips.insert(ip.clone());
                } else {
                    self.invalid_source_ips = self.invalid_source_ips + 1;
                }
            }
        }
        if let Some(value) = finding.get("uri_path") {
            if let Some(path) = value.as_text() {
                self.uri_paths.insert(path.clone());
            }
        }
    }

    /// What the findings of a file name, one on each line.
    pub fn load(lines: &Vec<String>) -> (r: Self)
        ensures
            r.wf(),
            r@ == observables_of(parsed_lines(texts(lines@))),
    {
        let mut r = PrivateObservables::none();
        let ghost all = parsed_lines(texts(lines@));
        let mut i: usize = 0;
        assert(all.take(0) =~= Seq::<Option<JsonModel>>::empty());
        while i < lines.len()
            invariant
                all == parsed_lines(texts(lines@)),
                i <= lines@.len(),
                r.wf(),
                r@ == observables_of(all.take(i as int)),
                r@.malformed <= i,
                r@.invalid <= i,
            decreases lines.len() - i,
        {
            let finding = Json::parse(lines[i].as_str());
            proof {
                assert(all[i as int] == json_from_text(lines@[i as int]@));
                assert(all.take(i + 1).drop_last() =~= all.take(i as int));
                assert(all.take(i + 1).last() == all[i as int]);
            }
            r.add(finding.as_ref());
            i = i + 1;
        }
        assert(all.take(i as int) =~= all);
        r
    }
}

/// The sixteen bytes of a name-based identifier, with its version and variant.
pub open spec fn uuid_bytes(key: Seq<char>) -> Seq<u8> {
    let d = Seq::new(16, |i: int| sha256_of(encode_utf8(key))[i]);
    d.update(6, (d[6] % 16 + 0x50) as u8).update(8, (d[8] % 64 + 0x80) as u8)
}

/// Bytes as an identifier: hexadecimal digits in five groups.
pub open spec fn grouped(b: Seq<u8>) -> Seq<char> {
    hex(b.subrange(0, 4)) + "-"@ + hex(b.subrange(4, 6)) + "-"@ + hex(b.subrange(6, 8)) + "-"@
        + hex(b.subrange(8, 10)) + "-"@ + hex(b.subrange(10, 16))
}

pub open spec fn uuid_of(key: Seq<char>) -> Seq<char> {
    grouped(uuid_bytes(key))
}

pub open spec fn id_of(kind: Seq<char>, key: Seq<char>) -> Seq<char> {
    kind + "--"@ + uuid_of(kind + ":"@ + key)
}

fn part(bytes: &Vec<u8>, from: usize, to: usize) -> (r: String)
    requires
        from <= to <= bytes@.len(),
    ensures
        r@ == hex(bytes@.subrange(from as int, to as int)),
{
    let mut piece: Vec<u8> = Vec::new();
    let mut i: usize = from;
    while i < to
        invariant
            from <= i <= to <= bytes@.len(),
            piece@ == bytes@.subrange(from as int, i as int),
        decreases to - i,
    {
        piece.push(bytes[i]);
        assert(bytes@.subrange(from as int, i + 1) =~= bytes@.subrange(from as int, i as int).push(
            bytes@[i as int],
        ));
        i = i + 1;
    }
    hex_text(&piece)
}

/// A name-based identifier.
pub fn bare_uuid(key: &str) -> (r: String)
    ensures
        r@ == uuid_of(key@),
        is_identifier(r@),
{
    let full = sha256(key.as_bytes());
    let mut bytes: Vec<u8> = Vec::new();
    let mut i: usize = 0;
    while i < 16
        invariant
            i <= 16,
            full@.len() == 32,
            bytes@ == full@.take(i as int),
        decreases 16 - i,
    {
        bytes.push(full[i]);
        assert(full@.take(i + 1) =~= full@.take(i as int).push(full@[i as int]));
        i = i + 1;
    }
    let version: u8 = bytes[6] % 16 + 0x50;
    bytes.set(6, version);
    let variant: u8 = bytes[8] % 64 + 0x80;
    bytes.set(8, variant);
    proof {
        assert(bytes@ =~= uuid_bytes(key@));
        identifiers_have_their_shape(key@);
    }
    let mut r = part(&bytes, 0, 4);
    r.append("-");
    r.append(part(&bytes, 4, 6).as_str());
    r.append("-");
    r.append(part(&bytes, 6, 8).as_str());
    r.append("-");
    r.append(part(&bytes, 8, 10).as_str());
    r.append("-");
    r.append(part(&bytes, 10, 16).as_str());
    r
}

/// The identifier of an object: its type, and a name-based identifier of its type and key.
pub fn stix_id(kind: &str, key: &str) -> (r: String)
    ensures
        r@ == id_of(kind@, key@),
        is_object_id(r@, kind@),
{
    proof {
        object_ids_have_their_shape(kind@, key@);
    }
    let mut name = kind.to_owned();
    name.append(":");
    name.append(key);
    let mut r = kind.to_owned();
    r.append("--");
    r.append(bare_uuid(name.as_str()).as_str());
    r
}

/// Whether a text has the shape of a name-based identifier: 36 characters, dashes between its
/// groups, and the version and variant of such an identifier.
pub open spec fn is_identifier(u: Seq<char>) -> bool {
    &&& u.len() == 36
    &&& u[8] == '-' && u[13] == '-' && u[18] == '-' && u[23] == '-'
    &&& u[14] == '5'
    &&& u[19] == '8' || u[19] == '9' || u[19] == 'a' || u[19] == 'b'
}

/// Whether an identifier is that of an object of a type: the type, two dashes, and a name-based
/// identifier.
pub open spec fn is_object_id(id: Seq<char>, kind: Seq<char>) -> bool {
    &&& id == kind + "--"@ + id.skip(kind.len() as int + 2)
    &&& is_identifier(id.skip(kind.len() as int + 2))
}

/// Every name-based identifier has the shape of one.
pub proof fn identifiers_have_their_shape(key: Seq<char>)
    ensures
        is_identifier(uuid_of(key)),
{
    let d = Seq::new(16, |i: int| sha256_of(encode_utf8(key))[i]);
    let b = uuid_bytes(key);
    assert(b[6] == (d[6] % 16 + 0x50) as u8);
    assert(b[8] == (d[8] % 64 + 0x80) as u8);
    lemma_identifier(b);
}

/// The identifier of an object has the type of the object in front.
pub proof fn object_ids_have_their_shape(kind: Seq<char>, key: Seq<char>)
    ensures
        is_object_id(id_of(kind, key), kind),
{
    reveal_strlit("--");
    let id = id_of(kind, key);
    identifiers_have_their_shape(kind + ":"@ + key);
    assert(id.skip(kind.len() as int + 2) =~= uuid_of(kind + ":"@ + key));
}

proof fn lemma_identifier(b: Seq<u8>)
    requires
        b.len() == 16,
        b[6] / 16 == 5,
        8 <= b[8] / 16 <= 11,
    ensures
        is_identifier(grouped(b)),
{
    reveal_strlit("-");
    hex_has_two_digits_for_each_byte(b.subrange(0, 4));
    hex_has_two_digits_for_each_byte(b.subrange(4, 6));
    hex_has_two_digits_for_each_byte(b.subrange(6, 8));
    hex_has_two_digits_for_each_byte(b.subrange(8, 10));
    hex_has_two_digits_for_each_byte(b.subrange(10, 16));
    lemma_first_digit(b[6], b[7]);
    lemma_first_digit(b[8], b[9]);
    assert(b.subrange(6, 8) =~= seq![b[6], b[7]]);
    assert(b.subrange(8, 10) =~= seq![b[8], b[9]]);
    let u = grouped(b);
    assert(u[14] == hex(b.subrange(6, 8))[0]);
    assert(u[19] == hex(b.subrange(8, 10))[0]);
}

proof fn lemma_first_digit(x: u8, y: u8)
    ensures
        hex(seq![x, y])[0] == crate::json::hex_char((x / 16) as nat),
{
    let s = seq![x, y];
    assert(s.drop_last() =~= seq![x]);
    assert(s.drop_last().drop_last() =~= Seq::<u8>::empty());
    reveal_with_fuel(hex, 3);
}

/// The time of a run: when it was made, else the earliest time that it saw.
pub open spec fn time_of(sanitized: JsonModel, manifest: Option<JsonModel>) -> Seq<char> {
    let generated = match manifest {
        Some(m) => text_at(field_of(m, "generated_at"@)),
        None => None,
    };
    match generated {
        Some(t) => t,
        None => match text_at(field2(sanitized, "metrics"@, "earliest_timestamp"@)) {
            Some(t) => t,
            None => "1970-01-01T00:00:00Z"@,
        },
    }
}

pub fn artifact_time<'a>(sanitized: &'a Json, manifest: Option<&'a Json>) -> (r: &'a str)
    ensures
        r@ == time_of(sanitized@, opt_json(manifest)),
{
    if let Some(m) = manifest {
        if let Some(value) = m.get("generated_at") {
            if let Some(text) = value.as_text() {
                return text.as_str();
            }
        }
    }
    if let Some(value) = sanitized.get2("metrics", "earliest_timestamp") {
        if let Some(text) = value.as_text() {
            return text.as_str();
        }
    }
    "1970-01-01T00:00:00Z"
}

pub open spec fn text(t: Seq<char>) -> JsonModel {
    JsonModel::Text(t)
}

pub open spec fn bare() -> Seq<(Seq<char>, JsonModel)> {
    Seq::empty()
}

/// A list of texts.
pub open spec fn text_list(list: Seq<Seq<char>>) -> JsonModel {
    JsonModel::List(list.map_values(|t: Seq<char>| JsonModel::Text(t)))
}

pub(crate) fn texts_json(list: &Vec<String>) -> (r: Json)
    ensures
        r@ == text_list(texts(list@)),
{
    let mut items = no_items();
    let ghost wanted = texts(list@).map_values(|t: Seq<char>| JsonModel::Text(t));
    let mut i: usize = 0;
    while i < list.len()
        invariant
            wanted == texts(list@).map_values(|t: Seq<char>| JsonModel::Text(t)),
            i <= list@.len(),
            item_models(items@) == wanted.take(i as int),
        decreases list.len() - i,
    {
        add_item(&mut items, Json::text(list[i].as_str()));
        assert(wanted[i as int] == JsonModel::Text(list@[i as int]@));
        assert(wanted.take(i + 1) =~= wanted.take(i as int).push(wanted[i as int]));
        i = i + 1;
    }
    assert(wanted.take(i as int) =~= wanted);
    Json::list(items)
}

fn one_text(t: &str) -> (r: Json)
    ensures
        r@ == text_list(seq![t@]),
{
    let mut list: Vec<String> = Vec::new();
    list.push(t.to_owned());
    assert(texts(list@) =~= seq![t@]);
    texts_json(&list)
}

fn put(fields: &mut Vec<(String, Json)>, name: &str, value: &str)
    ensures
        crate::json::field_models(final(fields)@) == crate::json::field_models(old(fields)@).push(
            (name@, text(value@)),
        ),
{
    add_field(fields, name, Json::text(value));
}

/// What every object of a document shares.
struct Frame {
    created: String,
    marking: String,
    identity: String,
}

pub struct FrameModel {
    pub created: Seq<char>,
    pub marking: Seq<char>,
    pub identity: Seq<char>,
}

impl Frame {
    spec fn model(&self) -> FrameModel {
        FrameModel {
            created: self.created@,
            marking: self.marking@,
            identity: self.identity@,
        }
    }
}

pub open spec fn frame_of(created: Seq<char>, tlp: TlpLevel) -> FrameModel {
    FrameModel {
        created,
        marking: id_of("marking-definition"@, "tlp:"@ + tlp.name()),
        identity: id_of("identity"@, "shenron"@),
    }
}

pub open spec fn marking_object(f: FrameModel, tlp: TlpLevel) -> JsonModel {
    JsonModel::Object(
        bare().push(("created"@, text(f.created))).push(
            ("definition"@, JsonModel::Object(bare().push(("tlp"@, text(tlp.name()))))),
        ).push(("definition_type"@, text("tlp"@))).push(("id"@, text(f.marking))).push(
            ("name"@, text(tlp.marking())),
        ).push(("spec_version"@, text("2.1"@))).push(("type"@, text("marking-definition"@))),
    )
}

fn write_marking(f: &Frame, tlp: TlpLevel) -> (r: Json)
    ensures
        r@ == marking_object(f.model(), tlp),
{
    let mut definition = no_fields();
    put(&mut definition, "tlp", tlp.label());
    let mut fields = no_fields();
    put(&mut fields, "created", f.created.as_str());
    add_field(&mut fields, "definition", Json::object(definition));
    put(&mut fields, "definition_type", "tlp");
    put(&mut fields, "id", f.marking.as_str());
    put(&mut fields, "name", tlp.marking_name());
    put(&mut fields, "spec_version", "2.1");
    put(&mut fields, "type", "marking-definition");
    Json::object(fields)
}

pub open spec fn identity_object(f: FrameModel) -> JsonModel {
    JsonModel::Object(
        bare().push(("created"@, text(f.created))).push(("id"@, text(f.identity))).push(
            ("identity_class"@, text("system"@)),
        ).push(("modified"@, text(f.created))).push(("name"@, text("Shenron"@))).push(
            ("object_marking_refs"@, text_list(seq![f.marking])),
        ).push(("spec_version"@, text("2.1"@))).push(("type"@, text("identity"@))),
    )
}

fn write_identity(f: &Frame) -> (r: Json)
    ensures
        r@ == identity_object(f.model()),
{
    let mut fields = no_fields();
    put(&mut fields, "created", f.created.as_str());
    put(&mut fields, "id", f.identity.as_str());
    put(&mut fields, "identity_class", "system");
    put(&mut fields, "modified", f.created.as_str());
    put(&mut fields, "name", "Shenron");
    add_field(&mut fields, "object_marking_refs", one_text(f.marking.as_str()));
    put(&mut fields, "spec_version", "2.1");
    put(&mut fields, "type", "identity");
    Json::object(fields)
}

pub open spec fn cve_reference(cve: Seq<char>) -> JsonModel {
    JsonModel::Object(
        bare().push(("external_id"@, text(cve))).push(("source_name"@, text("cve"@))),
    )
}

pub open spec fn vulnerability_object(f: FrameModel, cve: Seq<char>) -> JsonModel {
    JsonModel::Object(
        bare().push(("created"@, text(f.created))).push(("created_by_ref"@, text(f.identity))).push(
            ("external_references"@, JsonModel::List(seq![cve_reference(cve)])),
        ).push(("id"@, text(id_of("vulnerability"@, cve)))).push(
            ("modified"@, text(f.created)),
        ).push(("name"@, text(cve))).push(
            ("object_marking_refs"@, text_list(seq![f.marking])),
        ).push(("spec_version"@, text("2.1"@))).push(("type"@, text("vulnerability"@))),
    )
}

fn write_vulnerability(f: &Frame, cve: &str) -> (r: Json)
    ensures
        r@ == vulnerability_object(f.model(), cve@),
{
    let mut reference = no_fields();
    put(&mut reference, "external_id", cve);
    put(&mut reference, "source_name", "cve");
    let mut references = no_items();
    add_item(&mut references, Json::object(reference));
    let mut fields = no_fields();
    put(&mut fields, "created", f.created.as_str());
    put(&mut fields, "created_by_ref", f.identity.as_str());
    add_field(&mut fields, "external_references", Json::list(references));
    put(&mut fields, "id", stix_id("vulnerability", cve).as_str());
    put(&mut fields, "modified", f.created.as_str());
    put(&mut fields, "name", cve);
    add_field(&mut fields, "object_marking_refs", one_text(f.marking.as_str()));
    put(&mut fields, "spec_version", "2.1");
    put(&mut fields, "type", "vulnerability");
    Json::object(fields)
}

pub open spec fn or_null(value: Option<JsonModel>) -> JsonModel {
    match value {
        Some(j) => j,
        None => JsonModel::Null,
    }
}

fn copy_or_null(value: Option<&Json>) -> (r: Json)
    ensures
        r@ == or_null(opt_json(value)),
{
    match value {
        Some(j) => j.copy(),
        None => Json::Null,
    }
}

pub open spec fn or_no_list(value: Option<JsonModel>) -> JsonModel {
    match value {
        Some(j) => j,
        None => JsonModel::List(Seq::empty()),
    }
}

fn copy_or_no_list(value: Option<&Json>) -> (r: Json)
    ensures
        r@ == or_no_list(opt_json(value)),
{
    match value {
        Some(j) => j.copy(),
        None => Json::list(no_items()),
    }
}

pub open spec fn count_json(value: Option<JsonModel>) -> JsonModel {
    JsonModel::Number(decimal(number_or_zero(value)))
}

fn count_of(value: Option<&Json>) -> (r: u64)
    ensures
        r == number_or_zero(opt_json(value)),
{
    match value {
        Some(j) => match j.as_u64() {
            Some(n) => n,
            None => 0,
        },
        None => 0,
    }
}

pub open spec fn note_id(cve: Seq<char>, finding: JsonModel) -> Seq<char> {
    id_of("note"@, cve + ":"@ + compact_text(finding))
}

fn note_key(cve: &str, finding: &Json) -> (r: String)
    ensures
        r@ == note_id(cve@, finding@),
{
    let mut key = cve.to_owned();
    key.append(":");
    key.append(finding.compact().as_str());
    stix_id("note", key.as_str())
}

pub open spec fn note_object(f: FrameModel, cve: Seq<char>, finding: JsonModel) -> JsonModel {
    JsonModel::Object(
        bare().push(
            ("abstract"@, text("Sanitized Shenron CVE-related request-match aggregate"@)),
        ).push(
            (
                "content"@,
                text(
                    "Aggregate request-match volume for human review. This is not an attack, exploitation, compromise, vulnerable-product, campaign, or attacker-identity determination."@,
                ),
            ),
        ).push(("created"@, text(f.created))).push(("created_by_ref"@, text(f.identity))).push(
            ("id"@, text(note_id(cve, finding))),
        ).push(("modified"@, text(f.created))).push(
            ("object_marking_refs"@, text_list(seq![f.marking])),
        ).push(("object_refs"@, text_list(seq![id_of("vulnerability"@, cve)]))).push(
            ("spec_version"@, text("2.1"@)),
        ).push(("type"@, text("note"@))).push(
            ("x_shenron_detectability"@, or_null(field_of(finding, "detectability"@))),
        ).push(
            (
                "x_shenron_distinctive_path_matches"@,
                count_json(field_of(finding, "distinctive_path_matches"@)),
            ),
        ).push(
            (
                "x_shenron_generic_path_matches"@,
                count_json(field_of(finding, "generic_path_matches"@)),
            ),
        ).push(
            ("x_shenron_request_count"@, count_json(field_of(finding, "request_count"@))),
        ).push(("x_shenron_template_ids"@, or_no_list(field_of(finding, "template_ids"@)))),
    )
}

fn write_note(f: &Frame, cve: &str, finding: &Json) -> (r: Json)
    ensures
        r@ == note_object(f.model(), cve@, finding@),
{
    let mut fields = no_fields();
    put(&mut fields, "abstract", "Sanitized Shenron CVE-related request-match aggregate");
    put(
        &mut fields,
        "content",
        "Aggregate request-match volume for human review. This is not an attack, exploitation, compromise, vulnerable-product, campaign, or attacker-identity determination.",
    );
    put(&mut fields, "created", f.created.as_str());
    put(&mut fields, "created_by_ref", f.identity.as_str());
    put(&mut fields, "id", note_key(cve, finding).as_str());
    put(&mut fields, "modified", f.created.as_str());
    add_field(&mut fields, "object_marking_refs", one_text(f.marking.as_str()));
    add_field(&mut fields, "object_refs", one_text(stix_id("vulnerability", cve).as_str()));
    put(&mut fields, "spec_version", "2.1");
    put(&mut fields, "type", "note");
    add_field(&mut fields, "x_shenron_detectability", copy_or_null(finding.get("detectability")));
    let distinctive = count_of(finding.get("distinctive_path_matches"));
    add_field(&mut fields, "x_shenron_distinctive_path_matches", Json::number(distinctive));
    let generic = count_of(finding.get("generic_path_matches"));
    add_field(&mut fields, "x_shenron_generic_path_matches", Json::number(generic));
    let requests = count_of(finding.get("request_count"));
    add_field(&mut fields, "x_shenron_request_count", Json::number(requests));
    add_field(&mut fields, "x_shenron_template_ids", copy_or_no_list(finding.get("template_ids")));
    Json::object(fields)
}

pub open spec fn observed_object(f: FrameModel, kind: Seq<char>, value: Seq<char>) -> JsonModel {
    JsonModel::Object(
        bare().push(("id"@, text(id_of(kind, value)))).push(
            ("object_marking_refs"@, text_list(seq![f.marking])),
        ).push(("spec_version"@, text("2.1"@))).push(("type"@, text(kind))).push(
            ("value"@, text(value)),
        ),
    )
}

fn write_observed(f: &Frame, kind: &str, value: &str) -> (r: Json)
    ensures
        r@ == observed_object(f.model(), kind@, value@),
{
    let mut fields = no_fields();
    put(&mut fields, "id", stix_id(kind, value).as_str());
    add_field(&mut fields, "object_marking_refs", one_text(f.marking.as_str()));
    put(&mut fields, "spec_version", "2.1");
    put(&mut fields, "type", kind);
    put(&mut fields, "value", value);
    Json::object(fields)
}

pub open spec fn address_kind(ip: Seq<char>) -> Seq<char> {
    if parsed_address(ip) matches Some(a) && a.v4 {
        "ipv4-addr"@
    } else {
        "ipv6-addr"@
    }
}

fn kind_of(ip: &str) -> (r: &'static str)
    ensures
        r@ == address_kind(ip@),
{
    match Address::parse(ip) {
        Some(a) => if a.v4 {
            "ipv4-addr"
        } else {
            "ipv6-addr"
        },
        None => "ipv6-addr",
    }
}

/// The findings of a report.
pub open spec fn findings_of(sanitized: JsonModel) -> Seq<JsonModel> {
    match field_of(sanitized, "cve_findings"@) {
        Some(JsonModel::List(items)) => items,
        _ => Seq::empty(),
    }
}

/// The objects of a document and what the report refers to.
pub struct Parts {
    pub objects: Seq<JsonModel>,
    pub refs: Seq<Seq<char>>,
}

/// The objects with those of the first `n` findings. A finding without a CVE is left out.
pub open spec fn with_findings(p: Parts, f: FrameModel, findings: Seq<JsonModel>, n: nat) -> Parts
    decreases n,
{
    if n == 0 {
        p
    } else {
        let before = with_findings(p, f, findings, (n - 1) as nat);
        let finding = findings[n - 1];
        match text_at(field_of(finding, "cve"@)) {
            Some(cve) => Parts {
                objects: before.objects.push(vulnerability_object(f, cve)).push(
                    note_object(f, cve, finding),
                ),
                refs: before.refs.push(id_of("vulnerability"@, cve)).push(note_id(cve, finding)),
            },
            None => before,
        }
    }
}

/// The objects with those of the first `n` addresses.
pub open spec fn with_addresses(p: Parts, f: FrameModel, ips: Seq<Seq<char>>, n: nat) -> Parts
    decreases n,
{
    if n == 0 {
        p
    } else {
        let before = with_addresses(p, f, ips, (n - 1) as nat);
        let kind = address_kind(ips[n - 1]);
        Parts {
            objects: before.objects.push(observed_object(f, kind, ips[n - 1])),
            refs: before.refs.push(id_of(kind, ips[n - 1])),
        }
    }
}

/// The objects with those of the first `n` paths.
pub open spec fn with_paths(p: Parts, f: FrameModel, paths: Seq<Seq<char>>, n: nat) -> Parts
    decreases n,
{
    if n == 0 {
        p
    } else {
        let before = with_paths(p, f, paths, (n - 1) as nat);
        let kind = "x-shenron-uri-path"@;
        Parts {
            objects: before.objects.push(observed_object(f, kind, paths[n - 1])),
            refs: before.refs.push(id_of(kind, paths[n - 1])),
        }
    }
}

/// The objects before the report. Observables are there only where they were asked for.
pub open spec fn stix_parts(
    f: FrameModel,
    sanitized: JsonModel,
    o: ObservableModel,
    include_observables: bool,
    tlp: TlpLevel,
) -> Parts {
    let p0 = Parts {
        objects: Seq::<JsonModel>::empty().push(marking_object(f, tlp)).push(identity_object(f)),
        refs: Seq::<Seq<char>>::empty().push(f.identity),
    };
    let findings = findings_of(sanitized);
    let p1 = with_findings(p0, f, findings, findings.len());
    if include_observables {
        let ips = ordered_texts(o.source_ips);
        let paths = ordered_texts(o.uri_paths);
        with_paths(with_addresses(p1, f, ips, ips.len()), f, paths, paths.len())
    } else {
        p1
    }
}

pub open spec fn report_id(bytes: Seq<u8>) -> Seq<char> {
    id_of("report"@, digest_text(bytes))
}

pub open spec fn opt_named(manifest: Option<JsonModel>, name: Seq<char>) -> JsonModel {
    match manifest {
        Some(m) => or_null(field_of(m, name)),
        None => JsonModel::Null,
    }
}

fn named(manifest: Option<&Json>, name: &str) -> (r: Json)
    ensures
        r@ == opt_named(opt_json(manifest), name@),
{
    match manifest {
        Some(m) => copy_or_null(m.get(name)),
        None => Json::Null,
    }
}

pub open spec fn report_object(
    f: FrameModel,
    sanitized: JsonModel,
    manifest: Option<JsonModel>,
    bytes: Seq<u8>,
    o: ObservableModel,
    include_observables: bool,
    refs: Seq<Seq<char>>,
) -> JsonModel {
    JsonModel::Object(
        bare().push(("created"@, text(f.created))).push(("created_by_ref"@, text(f.identity))).push(
            (
                "description"@,
                text(
                    "A file-only export of observed aggregate request matches. It does not identify a threat actor or campaign and does not determine attack, exploitation, compromise, or vulnerability."@,
                ),
            ),
        ).push(("id"@, text(report_id(bytes)))).push(("modified"@, text(f.created))).push(
            ("name"@, text("Shenron sanitized CVE-related request-match aggregates"@)),
        ).push(("object_marking_refs"@, text_list(seq![f.marking]))).push(
            ("object_refs"@, text_list(refs)),
        ).push(("published"@, text(f.created))).push(
            ("report_types"@, text_list(seq!["threat-report"@])),
        ).push(("spec_version"@, text("2.1"@))).push(("type"@, text("report"@))).push(
            ("x_shenron_invalid_source_ips_excluded"@, JsonModel::Number(decimal(o.invalid))),
        ).push(
            (
                "x_shenron_malformed_private_findings_excluded"@,
                JsonModel::Number(decimal(o.malformed)),
            ),
        ).push(("x_shenron_nuclei_revision"@, opt_named(manifest, "nuclei_revision"@))).push(
            ("x_shenron_private_observables_included"@, JsonModel::Bool(include_observables)),
        ).push(
            (
                "x_shenron_request_specific_matches"@,
                count_json(field2(sanitized, "metrics"@, "request_specific_matches"@)),
            ),
        ).push(
            (
                "x_shenron_response_unverified_matches"@,
                count_json(field2(sanitized, "metrics"@, "response_unverified_matches"@)),
            ),
        ).push(("x_shenron_telemetry_profile"@, opt_named(manifest, "telemetry_profile"@))),
    )
}

fn write_report(
    f: &Frame,
    sanitized: &Json,
    manifest: Option<&Json>,
    bytes: &[u8],
    o: &PrivateObservables,
    include_observables: bool,
    refs: &Vec<String>,
) -> (r: Json)
    ensures
        r@ == report_object(
            f.model(),
            sanitized@,
            opt_json(manifest),
            bytes@,
            o@,
            include_observables,
            texts(refs@),
        ),
{
    let mut fields = no_fields();
    put(&mut fields, "created", f.created.as_str());
    put(&mut fields, "created_by_ref", f.identity.as_str());
    put(
        &mut fields,
        "description",
        "A file-only export of observed aggregate request matches. It does not identify a threat actor or campaign and does not determine attack, exploitation, compromise, or vulnerability.",
    );
    put(&mut fields, "id", stix_id("report", digest(bytes).as_str()).as_str());
    put(&mut fields, "modified", f.created.as_str());
    put(&mut fields, "name", "Shenron sanitized CVE-related request-match aggregates");
    add_field(&mut fields, "object_marking_refs", one_text(f.marking.as_str()));
    add_field(&mut fields, "object_refs", texts_json(refs));
    put(&mut fields, "published", f.created.as_str());
    add_field(&mut fields, "report_types", one_text("threat-report"));
    put(&mut fields, "spec_version", "2.1");
    put(&mut fields, "type", "report");
    add_field(
        &mut fields,
        "x_shenron_invalid_source_ips_excluded",
        Json::number(o.invalid_source_ips),
    );
    add_field(
        &mut fields,
        "x_shenron_malformed_private_findings_excluded",
        Json::number(o.malformed_findings),
    );
    add_field(&mut fields, "x_shenron_nuclei_revision", named(manifest, "nuclei_revision"));
    add_field(
        &mut fields,
        "x_shenron_private_observables_included",
        Json::Bool(include_observables),
    );
    let specific = count_of(sanitized.get2("metrics", "request_specific_matches"));
    add_field(&mut fields, "x_shenron_request_specific_matches", Json::number(specific));
    let unverified = count_of(sanitized.get2("metrics", "response_unverified_matches"));
    add_field(&mut fields, "x_shenron_response_unverified_matches", Json::number(unverified));
    add_field(&mut fields, "x_shenron_telemetry_profile", named(manifest, "telemetry_profile"));
    Json::object(fields)
}

/// A bundle: the objects in the order of their types and identifiers.
pub open spec fn stix_document(
    sanitized: JsonModel,
    manifest: Option<JsonModel>,
    bytes: Seq<u8>,
    o: ObservableModel,
    include_observables: bool,
    tlp: TlpLevel,
) -> JsonModel {
    let f = frame_of(time_of(sanitized, manifest), tlp);
    let p = stix_parts(f, sanitized, o, include_observables, tlp);
    let objects = p.objects.push(
        report_object(f, sanitized, manifest, bytes, o, include_observables, p.refs),
    );
    let key = tlp.name() + (if include_observables {
        ":true:"@
    } else {
        ":false:"@
    }) + report_id(bytes);
    JsonModel::Object(
        bare().push(("id"@, text(id_of("bundle"@, key)))).push(
            ("objects"@, JsonModel::List(in_field_order(objects, "type"@, "id"@))),
        ).push(("type"@, text("bundle"@))),
    )
}

/// Whether an object has an identifier of its own type.
pub open spec fn identified(object: JsonModel) -> bool {
    match (field_of(object, "type"@), field_of(object, "id"@)) {
        (Some(JsonModel::Text(kind)), Some(JsonModel::Text(id))) => is_object_id(id, kind),
        _ => false,
    }
}

pub open spec fn all_identified(objects: Seq<JsonModel>) -> bool {
    forall|i: int| 0 <= i < objects.len() ==> identified(#[trigger] objects[i])
}

/// Whether a bundle, and each object in it, has an identifier of its own type.
pub open spec fn bundle_identified(document: JsonModel) -> bool {
    &&& identified(document)
    &&& field_of(document, "objects"@) matches Some(JsonModel::List(objects)) && all_identified(
        objects,
    )
}

proof fn lemma_field_at(fields: Seq<(Seq<char>, JsonModel)>, name: Seq<char>, k: int)
    requires
        0 <= k < fields.len(),
        fields[k].0 == name,
        forall|j: int| 0 <= j < k ==> (#[trigger] fields[j]).0 != name,
    ensures
        field_of(JsonModel::Object(fields), name) == Some(fields[k].1),
    decreases k,
{
    if k > 0 {
        let rest = fields.skip(1);
        assert forall|j: int| 0 <= j < k - 1 implies (#[trigger] rest[j]).0 != name by {
            assert(rest[j] == fields[j + 1]);
        }
        assert(fields[0].0 != name);
        lemma_field_at(rest, name, k - 1);
    }
}

/// The names of fields that come before the type or the identifier of an object.
proof fn lemma_names_differ()
    ensures
        forall|name: Seq<char>|
            #![trigger is_other_name(name)]
            is_other_name(name) ==> name != "id"@ && name != "type"@,
        "id"@ != "type"@,
{
    reveal_strlit("id");
    reveal_strlit("type");
    reveal_strlit("name");
    reveal_strlit("created");
    reveal_strlit("created_by_ref");
    reveal_strlit("definition");
    reveal_strlit("definition_type");
    reveal_strlit("spec_version");
    reveal_strlit("identity_class");
    reveal_strlit("modified");
    reveal_strlit("object_marking_refs");
    reveal_strlit("external_references");
    reveal_strlit("abstract");
    reveal_strlit("content");
    reveal_strlit("object_refs");
    reveal_strlit("description");
    reveal_strlit("published");
    reveal_strlit("report_types");
    reveal_strlit("objects");
    assert("name"@[0] != "type"@[0]);
    assert("id"@.len() == 2 && "type"@.len() == 4 && "name"@.len() == 4);
}

spec fn is_other_name(name: Seq<char>) -> bool {
    ||| name == "name"@
    ||| name == "created"@
    ||| name == "created_by_ref"@
    ||| name == "definition"@
    ||| name == "definition_type"@
    ||| name == "spec_version"@
    ||| name == "identity_class"@
    ||| name == "modified"@
    ||| name == "object_marking_refs"@
    ||| name == "external_references"@
    ||| name == "abstract"@
    ||| name == "content"@
    ||| name == "object_refs"@
    ||| name == "description"@
    ||| name == "published"@
    ||| name == "report_types"@
    ||| name == "objects"@
}

/// An object whose type and identifier stand at two places, behind other fields, is identified.
proof fn lemma_identified(
    fields: Seq<(Seq<char>, JsonModel)>,
    kind: Seq<char>,
    key: Seq<char>,
    at: int,
    type_at: int,
)
    requires
        0 <= at < type_at < fields.len(),
        fields[at] == ("id"@, text(id_of(kind, key))),
        fields[type_at] == ("type"@, text(kind)),
        forall|j: int|
            0 <= j < type_at && j != at ==> is_other_name((#[trigger] fields[j]).0),
    ensures
        identified(JsonModel::Object(fields)),
{
    lemma_names_differ();
    object_ids_have_their_shape(kind, key);
    assert forall|j: int| 0 <= j < at implies (#[trigger] fields[j]).0 != "id"@ by {
        assert(is_other_name(fields[j].0));
    }
    assert forall|j: int| 0 <= j < type_at implies (#[trigger] fields[j]).0 != "type"@ by {
        if j != at {
            assert(is_other_name(fields[j].0));
        }
    }
    lemma_field_at(fields, "id"@, at);
    lemma_field_at(fields, "type"@, type_at);
}

proof fn lemma_frame_identified(created: Seq<char>, tlp: TlpLevel)
    ensures
        identified(marking_object(frame_of(created, tlp), tlp)),
        identified(identity_object(frame_of(created, tlp))),
{
    let f = frame_of(created, tlp);
    lemma_identified(
        marking_object(f, tlp)->Object_0,
        "marking-definition"@,
        "tlp:"@ + tlp.name(),
        3,
        6,
    );
    lemma_identified(identity_object(f)->Object_0, "identity"@, "shenron"@, 1, 7);
}

proof fn lemma_finding_identified(f: FrameModel, cve: Seq<char>, finding: JsonModel)
    ensures
        identified(vulnerability_object(f, cve)),
        identified(note_object(f, cve, finding)),
{
    lemma_identified(vulnerability_object(f, cve)->Object_0, "vulnerability"@, cve, 3, 8);
    lemma_identified(
        note_object(f, cve, finding)->Object_0,
        "note"@,
        cve + ":"@ + compact_text(finding),
        4,
        9,
    );
}

proof fn lemma_observed_identified(f: FrameModel, kind: Seq<char>, value: Seq<char>)
    ensures
        identified(observed_object(f, kind, value)),
{
    lemma_identified(observed_object(f, kind, value)->Object_0, kind, value, 0, 3);
}

proof fn lemma_findings_identified(p: Parts, f: FrameModel, findings: Seq<JsonModel>, n: nat)
    requires
        all_identified(p.objects),
    ensures
        all_identified(with_findings(p, f, findings, n).objects),
    decreases n,
{
    if n > 0 {
        lemma_findings_identified(p, f, findings, (n - 1) as nat);
        let finding = findings[n - 1];
        if let Some(cve) = text_at(field_of(finding, "cve"@)) {
            lemma_finding_identified(f, cve, finding);
        }
    }
}

proof fn lemma_addresses_identified(p: Parts, f: FrameModel, ips: Seq<Seq<char>>, n: nat)
    requires
        all_identified(p.objects),
    ensures
        all_identified(with_addresses(p, f, ips, n).objects),
    decreases n,
{
    if n > 0 {
        lemma_addresses_identified(p, f, ips, (n - 1) as nat);
        lemma_observed_identified(f, address_kind(ips[n - 1]), ips[n - 1]);
    }
}

proof fn lemma_paths_identified(p: Parts, f: FrameModel, paths: Seq<Seq<char>>, n: nat)
    requires
        all_identified(p.objects),
    ensures
        all_identified(with_paths(p, f, paths, n).objects),
    decreases n,
{
    if n > 0 {
        lemma_paths_identified(p, f, paths, (n - 1) as nat);
        lemma_observed_identified(f, "x-shenron-uri-path"@, paths[n - 1]);
    }
}

proof fn lemma_order_identified(objects: Seq<JsonModel>)
    requires
        all_identified(objects),
    ensures
        all_identified(in_field_order(objects, "type"@, "id"@)),
{
    broadcast use vstd::seq_lib::group_to_multiset_ensures;

    let list = in_field_order(objects, "type"@, "id"@);
    field_order_orders(objects, "type"@, "id"@);
    assert forall|i: int| 0 <= i < list.len() implies identified(#[trigger] list[i]) by {
        assert(list.contains(list[i]));
        assert(list.to_multiset().count(list[i]) > 0);
        assert(objects.contains(list[i]));
        let j = objects.index_of(list[i]);
        assert(identified(objects[j]));
    }
}

/// A bundle, and each object in it, has an identifier of its own type: the type, two dashes, and
/// a name-based identifier with its version and variant.
pub proof fn every_object_is_identified(
    sanitized: JsonModel,
    manifest: Option<JsonModel>,
    bytes: Seq<u8>,
    o: ObservableModel,
    include_observables: bool,
    tlp: TlpLevel,
)
    ensures
        bundle_identified(
            stix_document(sanitized, manifest, bytes, o, include_observables, tlp),
        ),
{
    let f = frame_of(time_of(sanitized, manifest), tlp);
    let p0 = Parts {
        objects: Seq::<JsonModel>::empty().push(marking_object(f, tlp)).push(identity_object(f)),
        refs: Seq::<Seq<char>>::empty().push(f.identity),
    };
    lemma_frame_identified(time_of(sanitized, manifest), tlp);
    let findings = findings_of(sanitized);
    lemma_findings_identified(p0, f, findings, findings.len());
    let p1 = with_findings(p0, f, findings, findings.len());
    if include_observables {
        let ips = ordered_texts(o.source_ips);
        let paths = ordered_texts(o.uri_paths);
        lemma_addresses_identified(p1, f, ips, ips.len());
        let p2 = with_addresses(p1, f, ips, ips.len());
        lemma_paths_identified(p2, f, paths, paths.len());
    }
    let p = stix_parts(f, sanitized, o, include_observables, tlp);
    let report = report_object(f, sanitized, manifest, bytes, o, include_observables, p.refs);
    lemma_identified(report->Object_0, "report"@, digest_text(bytes), 3, 11);
    lemma_order_identified(p.objects.push(report));
    let document = stix_document(sanitized, manifest, bytes, o, include_observables, tlp);
    let key = tlp.name() + (if include_observables {
        ":true:"@
    } else {
        ":false:"@
    }) + report_id(bytes);
    lemma_identified(document->Object_0, "bundle"@, key, 0, 2);
    lemma_names_differ();
    assert(is_other_name("objects"@));
    lemma_field_at(document->Object_0, "objects"@, 1);
}

/// The objects that have been written.
struct Draft {
    objects: Vec<Json>,
    refs: Vec<String>,
}

impl Draft {
    spec fn parts(&self) -> Parts {
        Parts { objects: item_models(self.objects@), refs: texts(self.refs@) }
    }

    fn push(&mut self, object: Json, id: String)
        ensures
            final(self).parts() == (Parts {
                objects: old(self).parts().objects.push(object@),
                refs: old(self).parts().refs.push(id@),
            }),
    {
        let ghost before = self.refs@;
        let ghost name = id@;
        add_item(&mut self.objects, object);
        self.refs.push(id);
        assert(texts(self.refs@) =~= texts(before).push(name));
    }

    fn push_finding(&mut self, f: &Frame, finding: &Json, findings: Ghost<Seq<JsonModel>>, start: Ghost<
        Parts,
    >, n: Ghost<nat>)
        requires
            n@ < findings@.len(),
            findings@[n@ as int] == finding@,
            old(self).parts() == with_findings(start@, f.model(), findings@, n@),
        ensures
            final(self).parts() == with_findings(start@, f.model(), findings@, n@ + 1),
    {
        if let Some(value) = finding.get("cve") {
            if let Some(cve) = value.as_text() {
                let cve = cve.as_str();
                self.push(write_vulnerability(f, cve), stix_id("vulnerability", cve));
                self.push(write_note(f, cve, finding), note_key(cve, finding));
            }
        }
    }
}

pub fn stix_bundle(
    sanitized: &Json,
    manifest: Option<&Json>,
    sanitized_bytes: &[u8],
    observables: &PrivateObservables,
    include_observables: bool,
    tlp: TlpLevel,
) -> (r: Json)
    requires
        observables.wf(),
    ensures
        r@ == stix_document(
            sanitized@,
            opt_json(manifest),
            sanitized_bytes@,
            observables@,
            include_observables,
            tlp,
        ),
        bundle_identified(r@),
{
    proof {
        every_object_is_identified(
            sanitized@,
            opt_json(manifest),
            sanitized_bytes@,
            observables@,
            include_observables,
            tlp,
        );
    }
    let mut marking_key = "tlp:".to_owned();
    marking_key.append(tlp.label());
    let f = Frame {
        created: artifact_time(sanitized, manifest).to_owned(),
        marking: stix_id("marking-definition", marking_key.as_str()),
        identity: stix_id("identity", "shenron"),
    };
    let ghost fm = f.model();
    let mut objects = no_items();
    add_item(&mut objects, write_marking(&f, tlp));
    add_item(&mut objects, write_identity(&f));
    let mut refs: Vec<String> = Vec::new();
    refs.push(f.identity.clone());
    assert(texts(refs@) =~= Seq::<Seq<char>>::empty().push(fm.identity));
    let mut draft = Draft { objects, refs };
    let ghost p0 = draft.parts();
    let no_findings: Vec<Json> = Vec::new();
    let findings: &Vec<Json> = match sanitized.get("cve_findings") {
        Some(value) => match value.as_list() {
            Some(items) => items,
            None => &no_findings,
        },
        None => &no_findings,
    };
    let ghost found = item_models(findings@);
    assert(found =~= findings_of(sanitized@));
    let mut i: usize = 0;
    while i < findings.len()
        invariant
            found == item_models(findings@),
            fm == f.model(),
            i <= findings@.len(),
            draft.parts() == with_findings(p0, fm, found, i as nat),
        decreases findings.len() - i,
    {
        draft.push_finding(&f, &findings[i], Ghost(found), Ghost(p0), Ghost(i as nat));
        i = i + 1;
    }
    let ghost p1 = draft.parts();
    if include_observables {
        proof {
            observables.source_ips.lemma_order();
            observables.uri_paths.lemma_order();
            observables.source_ips.lemma_members();
            observables.uri_paths.lemma_members();
        }
        let ghost ips = ordered_texts(observables.source_ips@);
        let ghost paths = ordered_texts(observables.uri_paths@);
        let count = observables.source_ips.len();
        let mut k: usize = 0;
        while k < count
            invariant
                observables.wf(),
                fm == f.model(),
                ips == observables.source_ips.member_seq(),
                count == ips.len(),
                k <= count,
                draft.parts() == with_addresses(p1, fm, ips, k as nat),
            decreases count - k,
        {
            let ip = observables.source_ips.member_at(k).as_str();
            let kind = kind_of(ip);
            draft.push(write_observed(&f, kind, ip), stix_id(kind, ip));
            k = k + 1;
        }
        let ghost p2 = draft.parts();
        let more = observables.uri_paths.len();
        let mut m: usize = 0;
        while m < more
            invariant
                observables.wf(),
                fm == f.model(),
                paths == observables.uri_paths.member_seq(),
                more == paths.len(),
                m <= more,
                draft.parts() == with_paths(p2, fm, paths, m as nat),
            decreases more - m,
        {
            let path = observables.uri_paths.member_at(m).as_str();
            draft.push(
                write_observed(&f, "x-shenron-uri-path", path),
                stix_id("x-shenron-uri-path", path),
            );
            m = m + 1;
        }
    }
    let report = write_report(
        &f,
        sanitized,
        manifest,
        sanitized_bytes,
        observables,
        include_observables,
        &draft.refs,
    );
    let mut objects = draft.objects;
    add_item(&mut objects, report);
    let sorted = sort_by_fields(objects, "type", "id");
    let mut key = tlp.label().to_owned();
    key.append(
        if include_observables {
            ":true:"
        } else {
            ":false:"
        },
    );
    key.append(stix_id("report", digest(sanitized_bytes).as_str()).as_str());
    let mut fields = no_fields();
    put(&mut fields, "id", stix_id("bundle", key.as_str()).as_str());
    add_field(&mut fields, "objects", Json::list(sorted));
    put(&mut fields, "type", "bundle");
    Json::object(fields)
}

/// Without leave a document does not depend on what private findings name.
pub proof fn observables_need_leave(
    sanitized: JsonModel,
    manifest: Option<JsonModel>,
    bytes: Seq<u8>,
    a: ObservableModel,
    b: ObservableModel,
    tlp: TlpLevel,
)
    requires
        a.malformed == b.malformed,
        a.invalid == b.invalid,
    ensures
        stix_document(sanitized, manifest, bytes, a, false, tlp) == stix_document(
            sanitized,
            manifest,
            bytes,
            b,
            false,
            tlp,
        ),
        misp_document(sanitized, manifest, bytes, a, false, tlp) == misp_document(
            sanitized,
            manifest,
            bytes,
            b,
            false,
            tlp,
        ),
{
}

pub open spec fn attribute(
    kind: Seq<char>,
    category: Seq<char>,
    value: Seq<char>,
    comment: Seq<char>,
) -> JsonModel {
    JsonModel::Object(
        bare().push(("category"@, text(category))).push(("comment"@, text(comment))).push(
            ("to_ids"@, JsonModel::Bool(false)),
        ).push(("type"@, text(kind))).push(("value"@, text(value))),
    )
}

fn write_attribute(kind: &str, category: &str, value: &str, comment: &str) -> (r: Json)
    ensures
        r@ == attribute(kind@, category@, value@, comment@),
{
    let mut fields = no_fields();
    put(&mut fields, "category", category);
    put(&mut fields, "comment", comment);
    add_field(&mut fields, "to_ids", Json::Bool(false));
    put(&mut fields, "type", kind);
    put(&mut fields, "value", value);
    Json::object(fields)
}

pub open spec fn vulnerability_attribute(cve: Seq<char>, finding: JsonModel) -> JsonModel {
    attribute(
        "vulnerability"@,
        "External analysis"@,
        cve,
        "CVE-related request-match aggregate: "@ + decimal(
            number_or_zero(field_of(finding, "request_count"@)),
        )
            + " requests; not an attack, exploitation, compromise, or vulnerable-product determination"@,
    )
}

pub open spec fn template_attribute(cve: Seq<char>, template: Seq<char>) -> JsonModel {
    attribute(
        "text"@,
        "External analysis"@,
        template,
        "Public Nuclei template ID associated with "@ + cve,
    )
}

/// The attributes of the first `n` templates of a finding; what is no text is left out.
pub open spec fn template_attributes(cve: Seq<char>, templates: Seq<JsonModel>, n: nat) -> Seq<
    JsonModel,
>
    decreases n,
{
    if n == 0 {
        Seq::empty()
    } else {
        let before = template_attributes(cve, templates, (n - 1) as nat);
        match templates[n - 1] {
            JsonModel::Text(t) => before.push(template_attribute(cve, t)),
            _ => before,
        }
    }
}

pub open spec fn templates_of(finding: JsonModel) -> Seq<JsonModel> {
    match field_of(finding, "template_ids"@) {
        Some(JsonModel::List(items)) => items,
        _ => Seq::empty(),
    }
}

/// The attributes of a finding.
pub open spec fn finding_attributes(finding: JsonModel) -> Seq<JsonModel> {
    match text_at(field_of(finding, "cve"@)) {
        Some(cve) => Seq::<JsonModel>::empty().push(vulnerability_attribute(cve, finding))
            + template_attributes(cve, templates_of(finding), templates_of(finding).len()),
        None => Seq::empty(),
    }
}

/// The attributes of the first `n` findings.
pub open spec fn all_finding_attributes(findings: Seq<JsonModel>, n: nat) -> Seq<JsonModel>
    decreases n,
{
    if n == 0 {
        Seq::empty()
    } else {
        all_finding_attributes(findings, (n - 1) as nat) + finding_attributes(findings[n - 1])
    }
}

pub open spec fn address_attribute(ip: Seq<char>) -> JsonModel {
    attribute(
        "ip-src"@,
        "Network activity"@,
        ip,
        "Observed connection peer; not attacker attribution"@,
    )
}

pub open spec fn path_attribute(path: Seq<char>) -> JsonModel {
    attribute(
        "uri"@,
        "Network activity"@,
        path,
        "Observed URI path; not an attack or exploitation determination"@,
    )
}

/// The attributes of an event before they are ordered.
pub open spec fn misp_attributes(
    sanitized: JsonModel,
    o: ObservableModel,
    include_observables: bool,
) -> Seq<JsonModel> {
    let findings = findings_of(sanitized);
    let first = all_finding_attributes(findings, findings.len());
    if include_observables {
        first + ordered_texts(o.source_ips).map_values(|ip: Seq<char>| address_attribute(ip))
            + ordered_texts(o.uri_paths).map_values(|path: Seq<char>| path_attribute(path))
    } else {
        first
    }
}

/// How many bytes a character takes.
pub open spec fn byte_width(c: char) -> nat {
    if (c as u32) < 0x80 {
        1
    } else if (c as u32) < 0x800 {
        2
    } else if (c as u32) < 0x10000 {
        3
    } else {
        4
    }
}

/// The first characters of a text that take exactly `n` bytes, where there are such.
pub open spec fn byte_prefix(s: Seq<char>, n: nat) -> Option<Seq<char>>
    decreases s.len(),
{
    if n == 0 {
        Some(Seq::empty())
    } else if s.len() == 0 || byte_width(s[0]) > n {
        None
    } else {
        match byte_prefix(s.skip(1), (n - byte_width(s[0])) as nat) {
            Some(rest) => Some(Seq::empty().push(s[0]) + rest),
            None => None,
        }
    }
}

/// The date of a time.
pub open spec fn date_of(time: Seq<char>) -> Seq<char> {
    match byte_prefix(time, 10) {
        Some(date) => date,
        None => "1970-01-01"@,
    }
}

fn width_of(c: char) -> (r: usize)
    ensures
        r == byte_width(c),
{
    if (c as u32) < 0x80 {
        1
    } else if (c as u32) < 0x800 {
        2
    } else if (c as u32) < 0x10000 {
        3
    } else {
        4
    }
}

pub fn artifact_date(time: &str) -> (r: String)
    ensures
        r@ == date_of(time@),
{
    let chars = chars_of(time);
    let ghost s = time@;
    let mut left: usize = 10;
    let mut i: usize = 0;
    assert(s.skip(0) =~= s);
    assert(s.take(0) =~= Seq::<char>::empty());
    proof {
        if byte_prefix(s, 10) is Some {
            assert(Seq::<char>::empty() + byte_prefix(s, 10).unwrap() =~= byte_prefix(
                s,
                10,
            ).unwrap());
        }
    }
    while left > 0
        invariant
            s == time@,
            chars@ == s,
            left <= 10,
            i <= s.len(),
            byte_prefix(s, 10) == (match byte_prefix(s.skip(i as int), left as nat) {
                Some(rest) => Some(s.take(i as int) + rest),
                None => None,
            }),
        decreases left,
    {
        if i >= chars.len() {
            return "1970-01-01".to_owned();
        }
        let c = chars[i];
        let width = width_of(c);
        proof {
            assert(s.skip(i as int)[0] == c);
            assert(s.skip(i as int).skip(1) =~= s.skip(i + 1));
        }
        if width > left {
            return "1970-01-01".to_owned();
        }
        proof {
            let rest = byte_prefix(s.skip(i + 1), (left - width) as nat);
            if rest is Some {
                assert(s.take(i as int) + (Seq::<char>::empty().push(c) + rest.unwrap()) =~= s.take(
                    i + 1,
                ) + rest.unwrap());
            }
        }
        left = left - width;
        i = i + 1;
    }
    assert(s.take(i as int) + Seq::<char>::empty() =~= s.take(i as int));
    assert(s.subrange(0, i as int) =~= s.take(i as int));
    text_between(&chars, 0, i)
}

/// An event: the attributes in the order of their types and values.
pub open spec fn misp_document(
    sanitized: JsonModel,
    manifest: Option<JsonModel>,
    bytes: Seq<u8>,
    o: ObservableModel,
    include_observables: bool,
    tlp: TlpLevel,
) -> JsonModel {
    let attributes = misp_attributes(sanitized, o, include_observables);
    let tag = JsonModel::Object(bare().push(("name"@, text("tlp:"@ + tlp.name()))));
    let context = JsonModel::Object(
        bare().push(
            ("invalid_source_ips_excluded"@, JsonModel::Number(decimal(o.invalid))),
        ).push(
            ("malformed_private_findings_excluded"@, JsonModel::Number(decimal(o.malformed))),
        ).push(("private_observables_included"@, JsonModel::Bool(include_observables))).push(
            (
                "safety_note"@,
                text(
                    "File-only observed-volume export; not an attack, exploitation, compromise, campaign, threat-actor, or attribution determination."@,
                ),
            ),
        ).push(("sanitized_default"@, JsonModel::Bool(!include_observables))),
    );
    let event = JsonModel::Object(
        bare().push(
            ("Attribute"@, JsonModel::List(in_field_order(attributes, "type"@, "value"@))),
        ).push(("Shenron"@, context)).push(
            ("Tag"@, JsonModel::List(Seq::<JsonModel>::empty().push(tag))),
        ).push(("analysis"@, text("2"@))).push(
            ("date"@, text(date_of(time_of(sanitized, manifest)))),
        ).push(("distribution"@, text("0"@))).push(
            ("info"@, text("Shenron request-match aggregates for human review"@)),
        ).push(("published"@, JsonModel::Bool(false))).push(
            ("threat_level_id"@, text("4"@)),
        ).push(("uuid"@, text(uuid_of("misp:"@ + digest_text(bytes))))),
    );
    JsonModel::Object(bare().push(("Event"@, event)))
}

fn add_finding(attributes: &mut Vec<Json>, finding: &Json)
    ensures
        item_models(final(attributes)@) == item_models(old(attributes)@) + finding_attributes(
            finding@,
        ),
{
    let ghost before = item_models(attributes@);
    assert(before + Seq::<JsonModel>::empty() =~= before);
    let cve = match finding.get("cve") {
        Some(value) => match value.as_text() {
            Some(cve) => cve.as_str(),
            None => {
                return;
            },
        },
        None => {
            return;
        },
    };
    let mut comment = "CVE-related request-match aggregate: ".to_owned();
    push_decimal(&mut comment, count_of(finding.get("request_count")));
    comment.append(
        " requests; not an attack, exploitation, compromise, or vulnerable-product determination",
    );
    add_item(
        attributes,
        write_attribute("vulnerability", "External analysis", cve, comment.as_str()),
    );
    let ghost head = Seq::<JsonModel>::empty().push(vulnerability_attribute(cve@, finding@));
    let none: Vec<Json> = Vec::new();
    let templates: &Vec<Json> = match finding.get("template_ids") {
        Some(value) => match value.as_list() {
            Some(items) => items,
            None => &none,
        },
        None => &none,
    };
    let ghost list = item_models(templates@);
    assert(list =~= templates_of(finding@));
    let mut i: usize = 0;
    assert(item_models(attributes@) =~= before + (head + template_attributes(cve@, list, 0)));
    while i < templates.len()
        invariant
            list == item_models(templates@),
            i <= templates@.len(),
            item_models(attributes@) == before + (head + template_attributes(
                cve@,
                list,
                i as nat,
            )),
        decreases templates.len() - i,
    {
        let ghost so_far = template_attributes(cve@, list, i as nat);
        assert(list[i as int] == templates@[i as int]@);
        if let Some(template) = templates[i].as_text() {
            let mut comment = "Public Nuclei template ID associated with ".to_owned();
            comment.append(cve);
            let item = write_attribute(
                "text",
                "External analysis",
                template.as_str(),
                comment.as_str(),
            );
            let ghost model = item@;
            add_item(attributes, item);
            assert((before + (head + so_far)).push(model) =~= before + (head + so_far.push(model)));
        }
        i = i + 1;
    }
}

fn add_observed(
    attributes: &mut Vec<Json>,
    members: &TextSet,
    kind: &str,
    comment: &str,
)
    requires
        members.wf(),
    ensures
        item_models(final(attributes)@) == item_models(old(attributes)@) + ordered_texts(
            members@,
        ).map_values(|v: Seq<char>| attribute(kind@, "Network activity"@, v, comment@)),
{
    proof {
        members.lemma_order();
        members.lemma_members();
    }
    let ghost before = item_models(attributes@);
    let ghost wanted = ordered_texts(members@).map_values(
        |v: Seq<char>| attribute(kind@, "Network activity"@, v, comment@),
    );
    let count = members.len();
    let mut i: usize = 0;
    assert(before + wanted.take(0) =~= before);
    while i < count
        invariant
            members.wf(),
            members.member_seq() == ordered_texts(members@),
            count == members.member_seq().len(),
            wanted == ordered_texts(members@).map_values(
                |v: Seq<char>| attribute(kind@, "Network activity"@, v, comment@),
            ),
            i <= count,
            item_models(attributes@) == before + wanted.take(i as int),
        decreases count - i,
    {
        let value = members.member_at(i).as_str();
        add_item(attributes, write_attribute(kind, "Network activity", value, comment));
        assert(wanted[i as int] == attribute(kind@, "Network activity"@, value@, comment@));
        assert(before + wanted.take(i + 1) =~= (before + wanted.take(i as int)).push(
            wanted[i as int],
        ));
        i = i + 1;
    }
    assert(wanted.take(i as int) =~= wanted);
}

fn collect_attributes(
    sanitized: &Json,
    observables: &PrivateObservables,
    include_observables: bool,
) -> (r: Vec<Json>)
    requires
        observables.wf(),
    ensures
        item_models(r@) == misp_attributes(sanitized@, observables@, include_observables),
{
    let none: Vec<Json> = Vec::new();
    let findings: &Vec<Json> = match sanitized.get("cve_findings") {
        Some(value) => match value.as_list() {
            Some(items) => items,
            None => &none,
        },
        None => &none,
    };
    let ghost found = item_models(findings@);
    assert(found =~= findings_of(sanitized@));
    let mut attributes = no_items();
    let mut i: usize = 0;
    while i < findings.len()
        invariant
            found == item_models(findings@),
            i <= findings@.len(),
            item_models(attributes@) == all_finding_attributes(found, i as nat),
        decreases findings.len() - i,
    {
        assert(found[i as int] == findings@[i as int]@);
        add_finding(&mut attributes, &findings[i]);
        i = i + 1;
    }
    if include_observables {
        let ghost first = item_models(attributes@);
        add_observed(
            &mut attributes,
            &observables.source_ips,
            "ip-src",
            "Observed connection peer; not attacker attribution",
        );
        let ghost second = item_models(attributes@);
        add_observed(
            &mut attributes,
            &observables.uri_paths,
            "uri",
            "Observed URI path; not an attack or exploitation determination",
        );
        assert(item_models(attributes@) =~= misp_attributes(
            sanitized@,
            observables@,
            include_observables,
        ));
    }
    attributes
}

pub fn misp_event(
    sanitized: &Json,
    manifest: Option<&Json>,
    sanitized_bytes: &[u8],
    observables: &PrivateObservables,
    include_observables: bool,
    tlp: TlpLevel,
) -> (r: Json)
    requires
        observables.wf(),
    ensures
        r@ == misp_document(
            sanitized@,
            opt_json(manifest),
            sanitized_bytes@,
            observables@,
            include_observables,
            tlp,
        ),
{
    let attributes = collect_attributes(sanitized, observables, include_observables);
    let mut label = "tlp:".to_owned();
    label.append(tlp.label());
    let mut tag = no_fields();
    put(&mut tag, "name", label.as_str());
    let mut tags = no_items();
    add_item(&mut tags, Json::object(tag));
    let mut context = no_fields();
    add_field(
        &mut context,
        "invalid_source_ips_excluded",
        Json::number(observables.invalid_source_ips),
    );
    add_field(
        &mut context,
        "malformed_private_findings_excluded",
        Json::number(observables.malformed_findings),
    );
    add_field(&mut context, "private_observables_included", Json::Bool(include_observables));
    put(
        &mut context,
        "safety_note",
        "File-only observed-volume export; not an attack, exploitation, compromise, campaign, threat-actor, or attribution determination.",
    );
    add_field(&mut context, "sanitized_default", Json::Bool(!include_observables));
    let mut key = "misp:".to_owned();
    key.append(digest(sanitized_bytes).as_str());
    let mut event = no_fields();
    add_field(
        &mut event,
        "Attribute",
        Json::list(sort_by_fields(attributes, "type", "value")),
    );
    add_field(&mut event, "Shenron", Json::object(context));
    add_field(&mut event, "Tag", Json::list(tags));
    put(&mut event, "analysis", "2");
    put(&mut event, "date", artifact_date(artifact_time(sanitized, manifest)).as_str());
    put(&mut event, "distribution", "0");
    put(&mut event, "info", "Shenron request-match aggregates for human review");
    add_field(&mut event, "published", Json::Bool(false));
    put(&mut event, "threat_level_id", "4");
    put(&mut event, "uuid", bare_uuid(key.as_str()).as_str());
    let mut fields = no_fields();
    add_field(&mut fields, "Event", Json::object(event));
    Json::object(fields)
}

/// A document in a format, from the bytes of the sanitized report.
pub open spec fn document_of(
    format: CtiExportFormat,
    sanitized: JsonModel,
    manifest: Option<JsonModel>,
    bytes: Seq<u8>,
    o: ObservableModel,
    include_observables: bool,
    tlp: TlpLevel,
) -> JsonModel {
    match format {
        CtiExportFormat::Stix => stix_document(
            sanitized,
            manifest,
            bytes,
            o,
            include_observables,
            tlp,
        ),
        CtiExportFormat::Misp => misp_document(
            sanitized,
            manifest,
            bytes,
            o,
            include_observables,
            tlp,
        ),
    }
}

/// The document of a run, from the texts of its artifacts; none where the sanitized report or the
/// manifest is not a JSON document. `findings` are the lines of the private findings, which are
/// read only where observables are asked for.
pub fn export_run(
    sanitized: &str,
    manifest: Option<&str>,
    findings: &Vec<String>,
    format: CtiExportFormat,
    include_observables: bool,
    tlp: Option<TlpLevel>,
) -> (r: Option<Json>)
    ensures
        ({
            let s = json_from_text(sanitized@);
            let m = match manifest {
                Some(t) => json_from_text(t@),
                None => None,
            };
            let o = if include_observables {
                observables_of(parsed_lines(texts(findings@)))
            } else {
                ObservableModel::none()
            };
            if s is None || (manifest is Some && m is None) {
                r is None
            } else {
                r matches Some(document) && document@ == document_of(
                    format,
                    s.unwrap(),
                    m,
                    encode_utf8(sanitized@),
                    o,
                    include_observables,
                    marking_for(tlp, include_observables),
                )
            }
        }),
{
    let report = match Json::parse(sanitized) {
        Some(value) => value,
        None => {
            return None;
        },
    };
    let details = match manifest {
        Some(text) => match Json::parse(text) {
            Some(value) => Some(value),
            None => {
                return None;
            },
        },
        None => None,
    };
    let observables = if include_observables {
        PrivateObservables::load(findings)
    } else {
        PrivateObservables::none()
    };
    let level = effective_tlp(tlp, include_observables);
    let bytes = sanitized.as_bytes();
    Some(
        match format {
            CtiExportFormat::Stix => stix_bundle(
                &report,
                details.as_ref(),
                bytes,
                &observables,
                include_observables,
                level,
            ),
            CtiExportFormat::Misp => misp_event(
                &report,
                details.as_ref(),
                bytes,
                &observables,
                include_observables,
                level,
            ),
        },
    )
}

} // verus!
