//! Comparison of two frozen runs. First-seen entities and elevated volume are triage context
//! only: new means review, not malicious.

use crate::digest::{digest, digest_text};
use crate::finding::FindingExplanation;
use crate::json::{
    compact_text, field2, field_of, json_from_bytes, read_json_bytes, whole_number, Json, JsonModel,
};
use crate::numbers::{as_double, small_numbers_are_exact, to_double, Median, Ratio};
use crate::ordered::{
    increasing, increasing_list_is_unique, ordered_texts, TextMap, TextSet,
};
use crate::text::{opt_text, same_text, texts};
use crate::volume_report::{
    PrivatePathConcentration, PrivateRequestConcentrationReport, PrivateSourceConcentration,
};
use vstd::prelude::*;
use vstd::string::*;

verus! {

broadcast use vstd::string::group_string_axioms;

/// A volume this many times the baseline counts as elevated.
pub const ELEVATED_RATIO: u64 = 3;

/// Below this baseline no ratio is reported.
pub const MIN_BASELINE_REQUESTS: u64 = 30;

#[derive(Clone, Debug)]
pub struct RunProvenance {
    pub shenron_version: Option<String>,
    pub telemetry_profile: Option<String>,
    pub nuclei_revision: Option<String>,
    pub filter_from: Option<String>,
    pub filter_to: Option<String>,
    pub artifacts_sha256: Vec<(String, Option<String>)>,
}

#[derive(Clone, Debug)]
pub struct ComparisonProvenance {
    pub baseline: RunProvenance,
    pub current: RunProvenance,
}

#[derive(Clone, Debug)]
pub struct Comparability {
    pub comparable: bool,
    pub kind: String,
    pub reasons: Vec<String>,
}

#[derive(Clone, Copy, Debug, PartialEq, Eq, Structural)]
pub struct NumericDelta {
    pub baseline: u64,
    pub current: u64,
    pub delta: i64,
}

/// A fraction in two runs, each as its artifact writes it.
#[derive(Clone, Debug)]
pub struct OptionalRatioDelta {
    pub baseline: Option<String>,
    pub current: Option<String>,
}

#[derive(Clone, Debug)]
pub struct CveDelta {
    pub cve: String,
    pub request_count: NumericDelta,
    pub unique_source_clusters: NumericDelta,
    pub unique_ja4_fingerprints: NumericDelta,
    pub protection_gap_rate: OptionalRatioDelta,
}

#[derive(Clone, Debug)]
pub struct CveDiff {
    pub available: bool,
    pub reason: Option<String>,
    pub newly_observed_cves: Vec<String>,
    pub disappeared_cves: Vec<String>,
    pub common_cve_deltas: Vec<CveDelta>,
}

#[derive(Clone, Copy, Debug, PartialEq, Eq, Structural)]
pub struct FirstSeenCounts {
    pub source_ips: usize,
    pub hosts: usize,
    pub uri_paths: usize,
    pub ja4_fingerprints: usize,
    pub client_ips: Option<usize>,
}

#[derive(Clone, Debug)]
pub struct FirstSeenPrivate {
    pub source_ips: Vec<String>,
    pub hosts: Vec<String>,
    pub uri_paths: Vec<String>,
    pub ja4_fingerprints: Vec<String>,
    pub client_ips: Option<Vec<String>>,
    pub unavailable: Vec<String>,
}

#[derive(Clone, Debug)]
pub struct VolumeDetail {
    pub key: String,
    pub baseline_requests: Option<u64>,
    pub current_requests: u64,
    pub ratio: Option<Ratio>,
    pub label: String,
}

/// A median set against an earlier one.
#[derive(Clone, Copy, Debug, PartialEq, Eq, Structural)]
pub struct MedianChange {
    pub baseline: Median,
    pub current: Median,
}

/// A share in two runs.
#[derive(Clone, Copy, Debug, PartialEq, Eq, Structural)]
pub struct ShareChange {
    pub baseline: Ratio,
    pub current: Ratio,
}

#[derive(Clone, Debug)]
pub struct ConcentrationDeltaSummary {
    pub available: bool,
    pub reason: Option<String>,
    pub elevated_paths: usize,
    pub elevated_source_ips: usize,
    pub low_baseline_paths: usize,
    pub low_baseline_source_ips: usize,
    /// The ratio of the two medians; none where one is unknown or the baseline is zero.
    pub median_rpm_ratio: Option<MedianChange>,
    pub median_rpm_elevated: Option<bool>,
    pub peak_rpm_delta: Option<i64>,
    pub top_ten_paths_share_delta: Option<ShareChange>,
    pub top_ten_source_ips_share_delta: Option<ShareChange>,
}

#[derive(Clone, Debug)]
pub struct ConcentrationDeltaPrivate {
    pub paths: Vec<VolumeDetail>,
    pub source_ips: Vec<VolumeDetail>,
}

#[derive(Clone, Debug)]
pub struct SanitizedTemporalComparison {
    pub report_kind: String,
    pub safety_note: String,
    pub provenance: ComparisonProvenance,
    pub comparability: Comparability,
    pub cve_diff: CveDiff,
    pub first_seen_counts: FirstSeenCounts,
    pub concentration_delta: ConcentrationDeltaSummary,
}

#[derive(Clone, Debug)]
pub struct PrivateTemporalComparison {
    pub report_kind: String,
    pub safety_note: String,
    pub provenance: ComparisonProvenance,
    pub first_seen_entities: FirstSeenPrivate,
    pub concentration_delta_detail: ConcentrationDeltaPrivate,
}

#[derive(Clone, Debug)]
pub struct TemporalComparison {
    pub sanitized: SanitizedTemporalComparison,
    pub private: PrivateTemporalComparison,
}

/// What a run reports of a CVE. The gap rate is kept as it is written.
#[derive(Clone, Debug)]
pub struct CveRecord {
    pub request_count: u64,
    pub sources: u64,
    pub ja4: u64,
    pub gap: Option<String>,
}

pub struct CveModel {
    pub request_count: nat,
    pub sources: nat,
    pub ja4: nat,
    pub gap: Option<Seq<char>>,
}

impl View for CveRecord {
    type V = CveModel;

    open spec fn view(&self) -> CveModel {
        CveModel {
            request_count: self.request_count as nat,
            sources: self.sources as nat,
            ja4: self.ja4 as nat,
            gap: opt_text(self.gap),
        }
    }
}

pub open spec fn cve_models(m: Map<Seq<char>, CveRecord>) -> Map<Seq<char>, CveModel> {
    m.map_values(|r: CveRecord| r@)
}

/// The artifacts of a run, read.
#[derive(Debug)]
pub struct RunArtifacts {
    pub provenance: RunProvenance,
    pub triage_policy: Option<String>,
    pub cves: Option<TextMap<CveRecord>>,
    pub findings: Option<Vec<FindingExplanation>>,
    pub concentration: Option<PrivateRequestConcentrationReport>,
}

/// A text at a field, where there is one.
pub open spec fn text_at(value: Option<JsonModel>) -> Option<Seq<char>> {
    match value {
        Some(JsonModel::Text(t)) => Some(t),
        _ => None,
    }
}

pub open spec fn or_else(a: Option<Seq<char>>, b: Option<Seq<char>>) -> Option<Seq<char>> {
    if a is Some {
        a
    } else {
        b
    }
}

pub open spec fn opt_field(document: Option<JsonModel>, name: Seq<char>) -> Option<JsonModel> {
    match document {
        Some(j) => field_of(j, name),
        None => None,
    }
}

pub open spec fn opt_field2(
    document: Option<JsonModel>,
    first: Seq<char>,
    second: Seq<char>,
) -> Option<JsonModel> {
    match document {
        Some(j) => field2(j, first, second),
        None => None,
    }
}

pub open spec fn opt_json(document: Option<&Json>) -> Option<JsonModel> {
    match document {
        Some(j) => Some(j@),
        None => None,
    }
}

fn string_at(document: Option<&Json>, name: &str) -> (r: Option<String>)
    ensures
        opt_text(r) == text_at(opt_field(opt_json(document), name@)),
{
    match document {
        Some(j) => match j.get(name) {
            Some(value) => match value.as_text() {
                Some(text) => Some(text.clone()),
                None => None,
            },
            None => None,
        },
        None => None,
    }
}

fn string_at2(document: Option<&Json>, first: &str, second: &str) -> (r: Option<String>)
    ensures
        opt_text(r) == text_at(opt_field2(opt_json(document), first@, second@)),
{
    match document {
        Some(j) => match j.get2(first, second) {
            Some(value) => match value.as_text() {
                Some(text) => Some(text.clone()),
                None => None,
            },
            None => None,
        },
        None => None,
    }
}

/// The provenance that the manifest and the sanitized report of a run give. The manifest comes
/// first, the report where the manifest says nothing.
pub fn run_provenance(
    manifest: Option<&Json>,
    sanitized: Option<&Json>,
    artifacts_sha256: Vec<(String, Option<String>)>,
) -> (r: RunProvenance)
    ensures
        is_provenance(r, opt_json(manifest), opt_json(sanitized)),
        r.artifacts_sha256 == artifacts_sha256,
{
    let telemetry_profile = match string_at(manifest, "telemetry_profile") {
        Some(text) => Some(text),
        None => string_at(sanitized, "telemetry_profile"),
    };
    let filter_from = match string_at2(manifest, "hunt_parameters", "filter_from") {
        Some(text) => Some(text),
        None => string_at(sanitized, "filter_from"),
    };
    let filter_to = match string_at2(manifest, "hunt_parameters", "filter_to") {
        Some(text) => Some(text),
        None => string_at(sanitized, "filter_to"),
    };
    RunProvenance {
        shenron_version: string_at(manifest, "shenron_version"),
        telemetry_profile,
        nuclei_revision: string_at(manifest, "nuclei_revision"),
        filter_from,
        filter_to,
        artifacts_sha256,
    }
}

/// The triage policy of a run, as its manifest writes it.
pub fn triage_policy(manifest: Option<&Json>) -> (r: Option<String>)
    ensures
        opt_text(r) == policy_of(opt_json(manifest)),
{
    match manifest {
        Some(j) => match j.get2("hunt_parameters", "triage_policy") {
            Some(value) => Some(value.compact()),
            None => None,
        },
        None => None,
    }
}

pub open spec fn number_or_zero(value: Option<JsonModel>) -> nat {
    match value {
        Some(j) => match whole_number(j) {
            Some(n) => n,
            None => 0,
        },
        None => 0,
    }
}

pub open spec fn number_text(value: Option<JsonModel>) -> Option<Seq<char>> {
    match value {
        Some(JsonModel::Number(t)) => Some(t),
        _ => None,
    }
}

/// What an entry of a sanitized report says of a CVE.
pub open spec fn cve_record(item: JsonModel) -> CveModel {
    CveModel {
        request_count: number_or_zero(field_of(item, "request_count"@)),
        sources: number_or_zero(field_of(item, "unique_source_clusters"@)),
        ja4: number_or_zero(field_of(item, "unique_ja4_fingerprints"@)),
        gap: number_text(field_of(item, "protection_gap_rate"@)),
    }
}

/// The CVEs of a list of entries, the last entry for a name deciding; none where an entry has no
/// name.
pub open spec fn cves_of(items: Seq<JsonModel>) -> Option<Map<Seq<char>, CveModel>>
    decreases items.len(),
{
    if items.len() == 0 {
        Some(Map::empty())
    } else {
        match (cves_of(items.drop_last()), text_at(field_of(items.last(), "cve"@))) {
            (Some(before), Some(name)) => Some(before.insert(name, cve_record(items.last()))),
            _ => None,
        }
    }
}

/// The CVEs of a document, where it is a sanitized report.
pub open spec fn reported_cves(document: JsonModel) -> Option<Map<Seq<char>, CveModel>> {
    if text_at(field_of(document, "report_kind"@)) == Some("SANITIZED_RESEARCH_OUTPUT"@) {
        match field_of(document, "cve_findings"@) {
            Some(JsonModel::List(items)) => cves_of(items),
            _ => None,
        }
    } else {
        None
    }
}

fn count_at(item: &Json, name: &str) -> (r: u64)
    ensures
        r == number_or_zero(field_of(item@, name@)),
{
    match item.get(name) {
        Some(value) => match value.as_u64() {
            Some(n) => n,
            None => 0,
        },
        None => 0,
    }
}

proof fn lemma_cves_prefix(items: Seq<JsonModel>, n: int)
    requires
        0 <= n <= items.len(),
        cves_of(items.take(n)) is None,
    ensures
        cves_of(items) is None,
    decreases items.len() - n,
{
    if n == items.len() {
        assert(items.take(n) =~= items);
    } else {
        assert(items.take(n + 1).drop_last() =~= items.take(n));
        lemma_cves_prefix(items, n + 1);
    }
}

pub fn parse_cves(document: &Json) -> (r: Option<TextMap<CveRecord>>)
    ensures
        match r {
            Some(map) => map.wf() && reported_cves(document@) == Some(cve_models(map@)),
            None => reported_cves(document@) is None,
        },
{
    let is_report = match document.get("report_kind") {
        Some(kind) => match kind.as_text() {
            Some(text) => same_text(text.as_str(), "SANITIZED_RESEARCH_OUTPUT"),
            None => false,
        },
        None => false,
    };
    if !is_report {
        return None;
    }
    let items = match document.get("cve_findings") {
        Some(value) => match value.as_list() {
            Some(items) => items,
            None => {
                return None;
            },
        },
        None => {
            return None;
        },
    };
    let ghost models = crate::json::item_models(items@);
    let mut map: TextMap<CveRecord> = TextMap::new();
    let mut i: usize = 0;
    assert(cve_models(map@) =~= Map::<Seq<char>, CveModel>::empty());
    while i < items.len()
        invariant
            models == crate::json::item_models(items@),
            i <= items@.len(),
            map.wf(),
            cves_of(models.take(i as int)) == Some(cve_models(map@)),
            reported_cves(document@) == cves_of(models),
        decreases items.len() - i,
    {
        let item = &items[i];
        proof {
            assert(models.take(i + 1).drop_last() =~= models.take(i as int));
            assert(models.take(i + 1).last() == item@);
        }
        let name = match item.get("cve") {
            Some(value) => match value.as_text() {
                Some(text) => text.clone(),
                None => {
                    proof {
                        lemma_cves_prefix(models, i + 1);
                    }
                    return None;
                },
            },
            None => {
                proof {
                    lemma_cves_prefix(models, i + 1);
                }
                return None;
            },
        };
        let gap = match item.get("protection_gap_rate") {
            Some(value) => match value.as_number() {
                Some(text) => Some(text.clone()),
                None => None,
            },
            None => None,
        };
        let record = CveRecord {
            request_count: count_at(item, "request_count"),
            sources: count_at(item, "unique_source_clusters"),
            ja4: count_at(item, "unique_ja4_fingerprints"),
            gap,
        };
        let ghost before = map@;
        let ghost key = name@;
        let ghost model = record@;
        map.insert(name, record);
        assert(cve_models(map@) =~= cve_models(before).insert(key, model));
        i = i + 1;
    }
    assert(models.take(i as int) =~= models);
    Some(map)
}

/// An artifact of a run that is not a JSON document.
#[derive(Clone, Copy, Debug, PartialEq, Eq, Structural)]
pub enum UnreadableArtifact {
    Manifest,
    SanitizedReport,
}

/// What an optional file reads as.
pub open spec fn document_of(file: Option<&[u8]>) -> Option<JsonModel> {
    match file {
        Some(bytes) => json_from_bytes(bytes@),
        None => None,
    }
}

/// A file that is there and is not a JSON document.
pub open spec fn unreadable(file: Option<&[u8]>) -> bool {
    file is Some && document_of(file) is None
}

pub open spec fn file_digest(file: Option<&[u8]>) -> Option<Seq<char>> {
    match file {
        Some(bytes) => Some(digest_text(bytes@)),
        None => None,
    }
}

pub open spec fn digest_models(
    digests: Seq<(String, Option<String>)>,
) -> Seq<(Seq<char>, Option<Seq<char>>)> {
    digests.map_values(|d: (String, Option<String>)| (d.0@, opt_text(d.1)))
}

/// The name of a JSON artifact.
pub open spec fn json_name(stem: Seq<char>) -> Seq<char> {
    stem + ".json"@
}

fn name_json(stem: &str) -> (r: String)
    ensures
        r@ == json_name(stem@),
{
    let mut name = stem.to_owned();
    name.append(".json");
    name
}

fn read_document(file: Option<&[u8]>) -> (r: Option<Json>)
    ensures
        match r {
            Some(value) => document_of(file) == Some(value@),
            None => document_of(file) is None,
        },
{
    match file {
        Some(bytes) => read_json_bytes(bytes),
        None => None,
    }
}

fn digest_file(file: Option<&[u8]>) -> (r: Option<String>)
    ensures
        opt_text(r) == file_digest(file),
{
    match file {
        Some(bytes) => Some(digest(bytes)),
        None => None,
    }
}

/// Whether a provenance is what a manifest and a sanitized report give.
pub open spec fn is_provenance(
    r: RunProvenance,
    m: Option<JsonModel>,
    s: Option<JsonModel>,
) -> bool {
    &&& opt_text(r.shenron_version) == text_at(opt_field(m, "shenron_version"@))
    &&& opt_text(r.telemetry_profile) == or_else(
        text_at(opt_field(m, "telemetry_profile"@)),
        text_at(opt_field(s, "telemetry_profile"@)),
    )
    &&& opt_text(r.nuclei_revision) == text_at(opt_field(m, "nuclei_revision"@))
    &&& opt_text(r.filter_from) == or_else(
        text_at(opt_field2(m, "hunt_parameters"@, "filter_from"@)),
        text_at(opt_field(s, "filter_from"@)),
    )
    &&& opt_text(r.filter_to) == or_else(
        text_at(opt_field2(m, "hunt_parameters"@, "filter_to"@)),
        text_at(opt_field(s, "filter_to"@)),
    )
}

/// The triage policy of a manifest, as it writes it.
pub open spec fn policy_of(manifest: Option<JsonModel>) -> Option<Seq<char>> {
    match opt_field2(manifest, "hunt_parameters"@, "triage_policy"@) {
        Some(value) => Some(compact_text(value)),
        None => None,
    }
}

/// Reads the artifacts of a run: the bytes of each file that is there, and the findings and the
/// volumes that the last two hold.
pub fn load_run(
    manifest: Option<&[u8]>,
    sanitized: Option<&[u8]>,
    private_findings: Option<&[u8]>,
    request_concentration: Option<&[u8]>,
    findings: Option<Vec<FindingExplanation>>,
    concentration: Option<PrivateRequestConcentrationReport>,
) -> (r: Result<RunArtifacts, UnreadableArtifact>)
    ensures
        match r {
            Ok(run) => {
                &&& !unreadable(manifest)
                &&& !unreadable(sanitized)
                &&& is_provenance(run.provenance, document_of(manifest), document_of(sanitized))
                &&& digest_models(run.provenance.artifacts_sha256@) == seq![
                    ("private-findings.jsonl"@, file_digest(private_findings)),
                    (json_name("request-concentration"@), file_digest(request_concentration)),
                    (json_name("run-manifest"@), file_digest(manifest)),
                    (json_name("sanitized-research"@), file_digest(sanitized)),
                ]
                &&& opt_text(run.triage_policy) == policy_of(document_of(manifest))
                &&& match (run.cves, document_of(sanitized)) {
                    (Some(map), Some(document)) => map.wf() && reported_cves(document) == Some(
                        cve_models(map@),
                    ),
                    (Some(map), None) => false,
                    (None, Some(document)) => reported_cves(document) is None,
                    (None, None) => true,
                }
                &&& run.findings == findings
                &&& run.concentration == concentration
            },
            Err(UnreadableArtifact::Manifest) => unreadable(manifest),
            Err(UnreadableArtifact::SanitizedReport) => !unreadable(manifest) && unreadable(
                sanitized,
            ),
        },
{
    let manifest_document = read_document(manifest);
    if manifest.is_some() && manifest_document.is_none() {
        return Err(UnreadableArtifact::Manifest);
    }
    let sanitized_document = read_document(sanitized);
    if sanitized.is_some() && sanitized_document.is_none() {
        return Err(UnreadableArtifact::SanitizedReport);
    }
    let mut digests: Vec<(String, Option<String>)> = Vec::new();
    digests.push(("private-findings.jsonl".to_owned(), digest_file(private_findings)));
    digests.push((name_json("request-concentration"), digest_file(request_concentration)));
    digests.push((name_json("run-manifest"), digest_file(manifest)));
    digests.push((name_json("sanitized-research"), digest_file(sanitized)));
    assert(digest_models(digests@) =~= seq![
        ("private-findings.jsonl"@, file_digest(private_findings)),
        (json_name("request-concentration"@), file_digest(request_concentration)),
        (json_name("run-manifest"@), file_digest(manifest)),
        (json_name("sanitized-research"@), file_digest(sanitized)),
    ]);
    let provenance = run_provenance(
        manifest_document.as_ref(),
        sanitized_document.as_ref(),
        digests,
    );
    let triage_policy = triage_policy(manifest_document.as_ref());
    let cves = match &sanitized_document {
        Some(document) => parse_cves(document),
        None => None,
    };
    Ok(RunArtifacts { provenance, triage_policy, cves, findings, concentration })
}

/// Whether two runs differ in an optional setting.
pub open spec fn differ(a: Option<String>, b: Option<String>) -> bool {
    opt_text(a) != opt_text(b)
}

/// Why two runs cannot be compared.
pub open spec fn incomparable(b: RunArtifacts, c: RunArtifacts) -> Seq<Seq<char>> {
    let profile = b.provenance.telemetry_profile is None || c.provenance.telemetry_profile is None;
    let policy = b.triage_policy is None || c.triage_policy is None;
    let r0: Seq<Seq<char>> = seq![];
    let r1 = if profile {
        r0.push("telemetry_profile is unavailable for one or both runs"@)
    } else {
        r0
    };
    let r2 = if differ(b.provenance.telemetry_profile, c.provenance.telemetry_profile) {
        r1.push("telemetry_profile differs"@)
    } else {
        r1
    };
    let r3 = if policy {
        r2.push("triage baseline is unavailable for one or both runs"@)
    } else {
        r2
    };
    if differ(b.triage_policy, c.triage_policy) {
        r3.push("triage baseline differs or is unavailable"@)
    } else {
        r3
    }
}

/// What kind of comparison two runs allow. The structural kind is only named where the runs are
/// comparable.
pub open spec fn comparison_kind(b: RunArtifacts, c: RunArtifacts) -> Seq<char> {
    let same_filter = !differ(b.provenance.filter_from, c.provenance.filter_from) && !differ(
        b.provenance.filter_to,
        c.provenance.filter_to,
    );
    let same_revision = !differ(b.provenance.nuclei_revision, c.provenance.nuclei_revision);
    if incomparable(b, c).len() > 0 {
        "not-comparable"@
    } else if same_filter && !same_revision {
        "cti-revision"@
    } else if same_revision && !same_filter {
        "calendar-window"@
    } else {
        "artifact-diff"@
    }
}

fn are_same(a: &Option<String>, b: &Option<String>) -> (r: bool)
    ensures
        r == !differ(*a, *b),
{
    match (a, b) {
        (Some(x), Some(y)) => same_text(x.as_str(), y.as_str()),
        (None, None) => true,
        _ => false,
    }
}

fn push_reason(reasons: &mut Vec<String>, reason: &str)
    ensures
        texts(final(reasons)@) == texts(old(reasons)@).push(reason@),
{
    let ghost before = reasons@;
    reasons.push(reason.to_owned());
    assert(texts(reasons@) =~= texts(before).push(reason@));
}

pub fn comparability(b: &RunArtifacts, c: &RunArtifacts) -> (r: Comparability)
    ensures
        texts(r.reasons@) == incomparable(*b, *c),
        r.comparable == (incomparable(*b, *c).len() == 0),
        r.kind@ == comparison_kind(*b, *c),
{
    let mut reasons: Vec<String> = Vec::new();
    assert(texts(reasons@) =~= Seq::<Seq<char>>::empty());
    if b.provenance.telemetry_profile.is_none() || c.provenance.telemetry_profile.is_none() {
        push_reason(&mut reasons, "telemetry_profile is unavailable for one or both runs");
    }
    if !are_same(&b.provenance.telemetry_profile, &c.provenance.telemetry_profile) {
        push_reason(&mut reasons, "telemetry_profile differs");
    }
    if b.triage_policy.is_none() || c.triage_policy.is_none() {
        push_reason(&mut reasons, "triage baseline is unavailable for one or both runs");
    }
    if !are_same(&b.triage_policy, &c.triage_policy) {
        push_reason(&mut reasons, "triage baseline differs or is unavailable");
    }
    assert(texts(reasons@).len() == reasons@.len());
    let same_filter = are_same(&b.provenance.filter_from, &c.provenance.filter_from) && are_same(
        &b.provenance.filter_to,
        &c.provenance.filter_to,
    );
    let same_revision = are_same(&b.provenance.nuclei_revision, &c.provenance.nuclei_revision);
    let kind = if reasons.len() > 0 {
        "not-comparable"
    } else if same_filter && !same_revision {
        "cti-revision"
    } else if same_revision && !same_filter {
        "calendar-window"
    } else {
        "artifact-diff"
    };
    Comparability { comparable: reasons.len() == 0, kind: kind.to_owned(), reasons }
}

/// Two runs with the same profile and the same policy are comparable.
pub proof fn like_runs_are_comparable(b: RunArtifacts, c: RunArtifacts)
    requires
        b.provenance.telemetry_profile is Some,
        b.triage_policy is Some,
        !differ(b.provenance.telemetry_profile, c.provenance.telemetry_profile),
        !differ(b.triage_policy, c.triage_policy),
    ensures
        incomparable(b, c).len() == 0,
{
}

/// The signed difference of two counts. One that does not fit wraps around.
pub open spec fn signed_difference(b: u64, c: u64) -> i64 {
    let d = c - b;
    if d > i64::MAX {
        (d - 0x1_0000_0000_0000_0000) as i64
    } else if d < i64::MIN {
        (d + 0x1_0000_0000_0000_0000) as i64
    } else {
        d as i64
    }
}

fn difference_of(b: u64, c: u64) -> (r: i64)
    ensures
        r == signed_difference(b, c),
{
    let d: i128 = c as i128 - b as i128;
    if d > i64::MAX as i128 {
        (d - 0x1_0000_0000_0000_0000) as i64
    } else if d < i64::MIN as i128 {
        (d + 0x1_0000_0000_0000_0000) as i64
    } else {
        d as i64
    }
}

pub open spec fn delta_of(b: nat, c: nat) -> NumericDelta {
    NumericDelta {
        baseline: b as u64,
        current: c as u64,
        delta: signed_difference(b as u64, c as u64),
    }
}

pub fn num(b: u64, c: u64) -> (r: NumericDelta)
    ensures
        r == delta_of(b as nat, c as nat),
{
    NumericDelta { baseline: b, current: c, delta: difference_of(b, c) }
}

/// Whether an entry says how a CVE changed.
pub open spec fn is_cve_delta(r: CveDelta, name: Seq<char>, b: CveModel, c: CveModel) -> bool {
    &&& r.cve@ == name
    &&& r.request_count == delta_of(b.request_count, c.request_count)
    &&& r.unique_source_clusters == delta_of(b.sources, c.sources)
    &&& r.unique_ja4_fingerprints == delta_of(b.ja4, c.ja4)
    &&& opt_text(r.protection_gap_rate.baseline) == b.gap
    &&& opt_text(r.protection_gap_rate.current) == c.gap
}

pub open spec fn delta_names(list: Seq<CveDelta>) -> Seq<Seq<char>> {
    list.map_values(|d: CveDelta| d.cve@)
}

/// Whether a difference names exactly the CVEs that appeared, that disappeared, and that both
/// runs have, each in the order on texts.
pub open spec fn is_cve_diff(
    r: CveDiff,
    b: Map<Seq<char>, CveModel>,
    c: Map<Seq<char>, CveModel>,
) -> bool {
    &&& r.available
    &&& r.reason is None
    &&& texts(r.newly_observed_cves@) == ordered_texts(c.dom().difference(b.dom()))
    &&& texts(r.disappeared_cves@) == ordered_texts(b.dom().difference(c.dom()))
    &&& delta_names(r.common_cve_deltas@) == ordered_texts(b.dom().intersect(c.dom()))
    &&& forall|i: int|
        0 <= i < r.common_cve_deltas@.len() ==> {
            let name = (#[trigger] r.common_cve_deltas@[i]).cve@;
            is_cve_delta(r.common_cve_deltas@[i], name, b[name], c[name])
        }
}

/// Whether no difference is given, as one of the reports is missing.
pub open spec fn no_cve_diff(r: CveDiff) -> bool {
    &&& !r.available
    &&& opt_text(r.reason) == Some("sanitized hunt report unavailable for one or both runs"@)
    &&& r.newly_observed_cves@.len() == 0
    &&& r.disappeared_cves@.len() == 0
    &&& r.common_cve_deltas@.len() == 0
}

/// The keys of one map that another does not have, in the order on texts.
fn keys_without<V, W>(a: &TextMap<V>, b: &TextMap<W>) -> (r: Vec<String>)
    requires
        a.wf(),
        b.wf(),
    ensures
        texts(r@) == ordered_texts(a@.dom().difference(b@.dom())),
{
    let mut r: Vec<String> = Vec::new();
    let count = a.len();
    let mut i: usize = 0;
    proof {
        a.lemma_positions();
    }
    while i < count
        invariant
            a.wf(),
            b.wf(),
            count == a.key_seq().len(),
            increasing(a.key_seq()),
            i <= count,
            increasing(texts(r@)),
            forall|k: int, n: int|
                0 <= k < r@.len() && i <= n < count ==> crate::text::text_before(
                    #[trigger] texts(r@)[k],
                    #[trigger] a.key_seq()[n],
                ),
            forall|k: int|
                0 <= k < r@.len() ==> a@.dom().contains(#[trigger] texts(r@)[k])
                    && !b@.dom().contains(texts(r@)[k]),
            forall|n: int|
                0 <= n < i && !b@.dom().contains(#[trigger] a.key_seq()[n]) ==> texts(r@).contains(
                    a.key_seq()[n],
                ),
        decreases count - i,
    {
        let key = a.key_at(i);
        if !b.contains_key(key.as_str()) {
            let ghost before = texts(r@);
            r.push(key.clone());
            proof {
                assert(texts(r@) =~= before.push(key@));
                assert(texts(r@)[before.len() as int] == key@);
                assert forall|n: int|
                    0 <= n < i + 1 && !b@.dom().contains(#[trigger] a.key_seq()[n]) implies texts(
                    r@,
                ).contains(a.key_seq()[n]) by {
                    if n < i {
                        assert(before.contains(a.key_seq()[n]));
                        let k = before.index_of(a.key_seq()[n]);
                        assert(texts(r@)[k] == a.key_seq()[n]);
                    }
                }
            }
        }
        i = i + 1;
    }
    proof {
        let wanted = a@.dom().difference(b@.dom());
        a.lemma_positions();
        assert(texts(r@).to_set() =~= wanted) by {
            assert forall|k: Seq<char>| texts(r@).to_set().contains(k) == wanted.contains(k) by {
                if texts(r@).to_set().contains(k) {
                    let n = texts(r@).index_of(k);
                    assert(texts(r@)[n] == k);
                }
                if wanted.contains(k) {
                    assert(a.key_seq().to_set().contains(k));
                    let n = a.key_seq().index_of(k);
                    assert(a.key_seq()[n] == k);
                }
            }
        }
        increasing_list_is_unique(texts(r@), ordered_texts(wanted));
    }
    r
}

pub fn cve_diff(b: Option<&TextMap<CveRecord>>, c: Option<&TextMap<CveRecord>>) -> (r: CveDiff)
    requires
        b matches Some(map) ==> map.wf(),
        c matches Some(map) ==> map.wf(),
    ensures
        match (b, c) {
            (Some(x), Some(y)) => is_cve_diff(r, cve_models(x@), cve_models(y@)),
            _ => no_cve_diff(r),
        },
{
    let (b, c) = match (b, c) {
        (Some(b), Some(c)) => (b, c),
        _ => {
            return CveDiff {
                available: false,
                reason: Some("sanitized hunt report unavailable for one or both runs".to_owned()),
                newly_observed_cves: Vec::new(),
                disappeared_cves: Vec::new(),
                common_cve_deltas: Vec::new(),
            };
        },
    };
    let ghost bm = cve_models(b@);
    let ghost cm = cve_models(c@);
    proof {
        b.lemma_positions();
        assert(bm.dom() =~= b@.dom());
        assert(cm.dom() =~= c@.dom());
    }
    let mut deltas: Vec<CveDelta> = Vec::new();
    let count = b.len();
    let mut i: usize = 0;
    while i < count
        invariant
            b.wf(),
            c.wf(),
            bm == cve_models(b@),
            cm == cve_models(c@),
            count == b.key_seq().len(),
            increasing(b.key_seq()),
            i <= count,
            increasing(delta_names(deltas@)),
            forall|k: int, n: int|
                0 <= k < deltas@.len() && i <= n < count ==> crate::text::text_before(
                    #[trigger] delta_names(deltas@)[k],
                    #[trigger] b.key_seq()[n],
                ),
            forall|k: int|
                0 <= k < deltas@.len() ==> b@.dom().contains((#[trigger] deltas@[k]).cve@)
                    && c@.dom().contains(deltas@[k].cve@) && is_cve_delta(
                    deltas@[k],
                    deltas@[k].cve@,
                    bm[deltas@[k].cve@],
                    cm[deltas@[k].cve@],
                ),
            forall|n: int|
                0 <= n < i && c@.dom().contains(#[trigger] b.key_seq()[n]) ==> delta_names(
                    deltas@,
                ).contains(b.key_seq()[n]),
        decreases count - i,
    {
        let key = b.key_at(i);
        let left = b.value_at(i);
        if let Some(right) = c.get(key.as_str()) {
            let ghost before = deltas@;
            let delta = CveDelta {
                cve: key.clone(),
                request_count: num(left.request_count, right.request_count),
                unique_source_clusters: num(left.sources, right.sources),
                unique_ja4_fingerprints: num(left.ja4, right.ja4),
                protection_gap_rate: OptionalRatioDelta {
                    baseline: match &left.gap {
                        Some(text) => Some(text.clone()),
                        None => None,
                    },
                    current: match &right.gap {
                        Some(text) => Some(text.clone()),
                        None => None,
                    },
                },
            };
            deltas.push(delta);
            proof {
                assert(bm[key@] == left@);
                assert(cm[key@] == right@);
                assert(delta_names(deltas@) =~= delta_names(before).push(key@));
                assert(delta_names(deltas@)[before.len() as int] == key@);
                assert forall|n: int|
                    0 <= n < i + 1 && c@.dom().contains(
                        #[trigger] b.key_seq()[n],
                    ) implies delta_names(deltas@).contains(b.key_seq()[n]) by {
                    if n < i {
                        assert(delta_names(before).contains(b.key_seq()[n]));
                        let k = delta_names(before).index_of(b.key_seq()[n]);
                        assert(delta_names(deltas@)[k] == b.key_seq()[n]);
                    }
                }
            }
        }
        i = i + 1;
    }
    proof {
        let wanted = bm.dom().intersect(cm.dom());
        b.lemma_positions();
        assert(delta_names(deltas@).to_set() =~= wanted) by {
            assert forall|k: Seq<char>| delta_names(deltas@).to_set().contains(k)
                == wanted.contains(k) by {
                if delta_names(deltas@).to_set().contains(k) {
                    let n = delta_names(deltas@).index_of(k);
                    assert(deltas@[n].cve@ == k);
                }
                if wanted.contains(k) {
                    assert(b.key_seq().to_set().contains(k));
                    let n = b.key_seq().index_of(k);
                    assert(b.key_seq()[n] == k);
                }
            }
        }
        increasing_list_is_unique(delta_names(deltas@), ordered_texts(wanted));
    }
    CveDiff {
        available: true,
        reason: None,
        newly_observed_cves: keys_without(c, b),
        disappeared_cves: keys_without(b, c),
        common_cve_deltas: deltas,
    }
}

/// Every CVE of either run is new, gone or common, and only one of these.
pub proof fn cve_changes_partition(
    b: Map<Seq<char>, CveModel>,
    c: Map<Seq<char>, CveModel>,
    cve: Seq<char>,
)
    requires
        b.dom().contains(cve) || c.dom().contains(cve),
    ensures
        ({
            let new = c.dom().difference(b.dom()).contains(cve);
            let gone = b.dom().difference(c.dom()).contains(cve);
            let common = b.dom().intersect(c.dom()).contains(cve);
            (new && !gone && !common) || (!new && gone && !common) || (!new && !gone && common)
        }),
{
}

/// What a finding names that can be seen for the first time.
#[derive(Clone, Copy, Debug, PartialEq, Eq, Structural)]
pub enum Entity {
    SourceIp,
    Host,
    UriPath,
    Ja4,
    ClientIp,
}

pub open spec fn entity_of(f: FindingExplanation, entity: Entity) -> Option<Seq<char>> {
    match entity {
        Entity::SourceIp => opt_text(f.source_ip),
        Entity::Host => opt_text(f.host),
        Entity::UriPath => opt_text(f.uri_path),
        Entity::Ja4 => opt_text(f.ja4),
        Entity::ClientIp => opt_text(f.client_ip),
    }
}

/// The values of an entity in a list of findings.
pub open spec fn entities(findings: Seq<FindingExplanation>, entity: Entity) -> Set<Seq<char>>
    decreases findings.len(),
{
    if findings.len() == 0 {
        Set::empty()
    } else {
        let before = entities(findings.drop_last(), entity);
        match entity_of(findings.last(), entity) {
            Some(value) => before.insert(value),
            None => before,
        }
    }
}

fn values(findings: &Vec<FindingExplanation>, entity: Entity) -> (r: TextSet)
    ensures
        r.wf(),
        r@ == entities(findings@, entity),
{
    let mut r = TextSet::new();
    let mut i: usize = 0;
    while i < findings.len()
        invariant
            r.wf(),
            i <= findings@.len(),
            r@ == entities(findings@.take(i as int), entity),
        decreases findings.len() - i,
    {
        let f = &findings[i];
        assert(findings@.take(i + 1).drop_last() =~= findings@.take(i as int));
        assert(findings@.take(i + 1).last() == *f);
        let value = match entity {
            Entity::SourceIp => &f.source_ip,
            Entity::Host => &f.host,
            Entity::UriPath => &f.uri_path,
            Entity::Ja4 => &f.ja4,
            Entity::ClientIp => &f.client_ip,
        };
        if let Some(text) = value {
            r.insert(text.clone());
        }
        i = i + 1;
    }
    assert(findings@.take(i as int) =~= findings@);
    r
}

/// The members of one set that another does not have, in the order on texts.
pub fn members_without(a: &TextSet, b: &TextSet) -> (r: Vec<String>)
    requires
        a.wf(),
        b.wf(),
    ensures
        texts(r@) == ordered_texts(a@.difference(b@)),
{
    let mut r: Vec<String> = Vec::new();
    let count = a.len();
    let mut i: usize = 0;
    proof {
        a.lemma_members();
    }
    while i < count
        invariant
            a.wf(),
            b.wf(),
            count == a.member_seq().len(),
            increasing(a.member_seq()),
            i <= count,
            increasing(texts(r@)),
            forall|k: int, n: int|
                0 <= k < r@.len() && i <= n < count ==> crate::text::text_before(
                    #[trigger] texts(r@)[k],
                    #[trigger] a.member_seq()[n],
                ),
            forall|k: int|
                0 <= k < r@.len() ==> a@.contains(#[trigger] texts(r@)[k]) && !b@.contains(
                    texts(r@)[k],
                ),
            forall|n: int|
                0 <= n < i && !b@.contains(#[trigger] a.member_seq()[n]) ==> texts(r@).contains(
                    a.member_seq()[n],
                ),
        decreases count - i,
    {
        let member = a.member_at(i);
        if !b.contains(member.as_str()) {
            let ghost before = texts(r@);
            r.push(member.clone());
            proof {
                assert(texts(r@) =~= before.push(member@));
                assert(texts(r@)[before.len() as int] == member@);
                assert forall|n: int|
                    0 <= n < i + 1 && !b@.contains(#[trigger] a.member_seq()[n]) implies texts(
                    r@,
                ).contains(a.member_seq()[n]) by {
                    if n < i {
                        assert(before.contains(a.member_seq()[n]));
                        let k = before.index_of(a.member_seq()[n]);
                        assert(texts(r@)[k] == a.member_seq()[n]);
                    }
                }
            }
        }
        i = i + 1;
    }
    proof {
        let wanted = a@.difference(b@);
        a.lemma_members();
        assert(texts(r@).to_set() =~= wanted) by {
            assert forall|k: Seq<char>| texts(r@).to_set().contains(k) == wanted.contains(k) by {
                if texts(r@).to_set().contains(k) {
                    let n = texts(r@).index_of(k);
                    assert(texts(r@)[n] == k);
                }
                if wanted.contains(k) {
                    assert(a.member_seq().to_set().contains(k));
                    let n = a.member_seq().index_of(k);
                    assert(a.member_seq()[n] == k);
                }
            }
        }
        increasing_list_is_unique(texts(r@), ordered_texts(wanted));
    }
    r
}

/// The values of an entity that the current run has and the baseline does not, in the order on
/// texts.
pub open spec fn new_entities(
    b: Seq<FindingExplanation>,
    c: Seq<FindingExplanation>,
    entity: Entity,
) -> Seq<Seq<char>> {
    ordered_texts(entities(c, entity).difference(entities(b, entity)))
}

fn new_values(
    b: &Vec<FindingExplanation>,
    c: &Vec<FindingExplanation>,
    entity: Entity,
) -> (r: Vec<String>)
    ensures
        texts(r@) == new_entities(b@, c@, entity),
{
    members_without(&values(c, entity), &values(b, entity))
}

/// Whether nothing is reported as first seen, for one reason.
pub open spec fn nothing_seen(r: (FirstSeenCounts, FirstSeenPrivate), reason: Seq<char>) -> bool {
    &&& r.0 == (FirstSeenCounts {
        source_ips: 0,
        hosts: 0,
        uri_paths: 0,
        ja4_fingerprints: 0,
        client_ips: None,
    })
    &&& r.1.source_ips@.len() == 0
    &&& r.1.hosts@.len() == 0
    &&& r.1.uri_paths@.len() == 0
    &&& r.1.ja4_fingerprints@.len() == 0
    &&& r.1.client_ips is None
    &&& texts(r.1.unavailable@) == seq![reason]
}

/// Whether the first-seen values are reported privately, and their numbers without them.
pub open spec fn is_first_seen(
    r: (FirstSeenCounts, FirstSeenPrivate),
    b: Seq<FindingExplanation>,
    c: Seq<FindingExplanation>,
) -> bool {
    let no_clients = entities(b, Entity::ClientIp).len() == 0 || entities(c, Entity::ClientIp).len()
        == 0;
    &&& texts(r.1.source_ips@) == new_entities(b, c, Entity::SourceIp)
    &&& texts(r.1.hosts@) == new_entities(b, c, Entity::Host)
    &&& texts(r.1.uri_paths@) == new_entities(b, c, Entity::UriPath)
    &&& texts(r.1.ja4_fingerprints@) == new_entities(b, c, Entity::Ja4)
    &&& r.0.source_ips == r.1.source_ips@.len()
    &&& r.0.hosts == r.1.hosts@.len()
    &&& r.0.uri_paths == r.1.uri_paths@.len()
    &&& r.0.ja4_fingerprints == r.1.ja4_fingerprints@.len()
    &&& if no_clients {
        &&& r.0.client_ips is None
        &&& r.1.client_ips is None
        &&& texts(r.1.unavailable@) == seq![
            "client_ip comparison unavailable because one or both runs have no validated client IPs"@,
        ]
    } else {
        &&& r.1.client_ips matches Some(list) && texts(list@) == new_entities(
            b,
            c,
            Entity::ClientIp,
        ) && r.0.client_ips == Some(list@.len() as usize)
        &&& r.1.unavailable@.len() == 0
    }
}

fn unavailable_entities(reason: &str) -> (r: (FirstSeenCounts, FirstSeenPrivate))
    ensures
        nothing_seen(r, reason@),
{
    let mut unavailable: Vec<String> = Vec::new();
    unavailable.push(reason.to_owned());
    assert(texts(unavailable@) =~= seq![reason@]);
    (
        FirstSeenCounts {
            source_ips: 0,
            hosts: 0,
            uri_paths: 0,
            ja4_fingerprints: 0,
            client_ips: None,
        },
        FirstSeenPrivate {
            source_ips: Vec::new(),
            hosts: Vec::new(),
            uri_paths: Vec::new(),
            ja4_fingerprints: Vec::new(),
            client_ips: None,
            unavailable,
        },
    )
}

pub fn first_seen(
    b: Option<&Vec<FindingExplanation>>,
    c: Option<&Vec<FindingExplanation>>,
) -> (r: (FirstSeenCounts, FirstSeenPrivate))
    ensures
        match (b, c) {
            (None, _) => nothing_seen(r, "baseline private-findings.jsonl is unavailable"@),
            (Some(_), None) => nothing_seen(r, "current private-findings.jsonl is unavailable"@),
            (Some(x), Some(y)) => is_first_seen(r, x@, y@),
        },
{
    let b = match b {
        Some(b) => b,
        None => {
            return unavailable_entities("baseline private-findings.jsonl is unavailable");
        },
    };
    let c = match c {
        Some(c) => c,
        None => {
            return unavailable_entities("current private-findings.jsonl is unavailable");
        },
    };
    let source_ips = new_values(b, c, Entity::SourceIp);
    let hosts = new_values(b, c, Entity::Host);
    let uri_paths = new_values(b, c, Entity::UriPath);
    let ja4_fingerprints = new_values(b, c, Entity::Ja4);
    let b_clients = values(b, Entity::ClientIp);
    let c_clients = values(c, Entity::ClientIp);
    let mut unavailable: Vec<String> = Vec::new();
    let (client_ips, client_count) = if b_clients.len() == 0 || c_clients.len() == 0 {
        unavailable.push(
            "client_ip comparison unavailable because one or both runs have no validated client IPs".to_owned(),
        );
        assert(texts(unavailable@) =~= seq![
            "client_ip comparison unavailable because one or both runs have no validated client IPs"@,
        ]);
        (None, None)
    } else {
        let list = members_without(&c_clients, &b_clients);
        let count = list.len();
        (Some(list), Some(count))
    };
    (
        FirstSeenCounts {
            source_ips: source_ips.len(),
            hosts: hosts.len(),
            uri_paths: uri_paths.len(),
            ja4_fingerprints: ja4_fingerprints.len(),
            client_ips: client_count,
        },
        FirstSeenPrivate {
            source_ips,
            hosts,
            uri_paths,
            ja4_fingerprints,
            client_ips,
            unavailable,
        },
    )
}

/// Whether the quotient of two double-precision numbers, rounded to one itself, reaches the
/// elevated ratio of three. The number held next below three lies 2^-51 from it, and a quotient
/// halfway between them is rounded to three, which is the even multiple of that distance. So the
/// quotient has to reach 3 - 2^-52.
pub open spec fn reaches_elevated(current: nat, baseline: nat) -> bool {
    current * 0x10_0000_0000_0000 >= 0x2f_ffff_ffff_ffff * baseline
}

/// As long as three times the baseline is below 2^53, a volume is elevated from exactly three
/// times the baseline on.
pub proof fn elevated_from_three_times_on(current: u64, baseline: u64)
    requires
        baseline >= MIN_BASELINE_REQUESTS,
        baseline * ELEVATED_RATIO < 0x20_0000_0000_0000,
    ensures
        volume_label(Some(baseline), current) == (if current >= baseline * ELEVATED_RATIO {
            "elevated"@
        } else {
            "unchanged"@
        }),
{
    small_numbers_are_exact(current as nat);
    small_numbers_are_exact(baseline as nat);
    assert(baseline * ELEVATED_RATIO == 3 * baseline);
}

fn is_elevated(current: u128, baseline: u128) -> (r: bool)
    requires
        current < 0x10_0000_0000_0000_0000,
        baseline < 0x10_0000_0000_0000_0000,
    ensures
        r == reaches_elevated(current as nat, baseline as nat),
{
    current * 0x10_0000_0000_0000 >= 0x2f_ffff_ffff_ffff * baseline
}

/// How a volume changed: new without a baseline, not compared below the smallest baseline, and
/// elevated from three times the baseline on, both volumes taken as double-precision numbers.
pub open spec fn volume_label(baseline: Option<u64>, current: u64) -> Seq<char> {
    match baseline {
        None => "new"@,
        Some(b) => if b < MIN_BASELINE_REQUESTS {
            "low-baseline"@
        } else if reaches_elevated(as_double(current as nat), as_double(b as nat)) {
            "elevated"@
        } else {
            "unchanged"@
        },
    }
}

pub open spec fn volume_ratio(baseline: Option<u64>, current: u64) -> Option<Ratio> {
    match baseline {
        Some(b) => if b < MIN_BASELINE_REQUESTS {
            None
        } else {
            Some(Ratio { numerator: current, denominator: b })
        },
        None => None,
    }
}

pub open spec fn baseline_of(b: Map<Seq<char>, u64>, key: Seq<char>) -> Option<u64> {
    if b.dom().contains(key) {
        Some(b[key])
    } else {
        None
    }
}

pub open spec fn detail_keys(r: Seq<VolumeDetail>) -> Seq<Seq<char>> {
    r.map_values(|d: VolumeDetail| d.key@)
}

/// Whether the details say how the volume of each current key changed, in the order on texts.
pub open spec fn is_volume_detail(
    r: Seq<VolumeDetail>,
    b: Map<Seq<char>, u64>,
    c: Map<Seq<char>, u64>,
) -> bool {
    &&& detail_keys(r) == ordered_texts(c.dom())
    &&& forall|i: int|
        0 <= i < r.len() ==> {
            let key = (#[trigger] r[i]).key@;
            let baseline = baseline_of(b, key);
            &&& r[i].baseline_requests == baseline
            &&& r[i].current_requests == c[key]
            &&& r[i].ratio == volume_ratio(baseline, c[key])
            &&& r[i].label@ == volume_label(baseline, c[key])
        }
}

/// How many entries have a label.
pub open spec fn labelled(r: Seq<VolumeDetail>, label: Seq<char>) -> nat
    decreases r.len(),
{
    if r.len() == 0 {
        0
    } else {
        labelled(r.drop_last(), label) + if r.last().label@ == label {
            1nat
        } else {
            0nat
        }
    }
}

fn count_labelled(r: &Vec<VolumeDetail>, label: &str) -> (n: usize)
    ensures
        n == labelled(r@, label@),
{
    let mut n: usize = 0;
    let mut i: usize = 0;
    while i < r.len()
        invariant
            i <= r@.len(),
            n <= i,
            n == labelled(r@.take(i as int), label@),
        decreases r.len() - i,
    {
        assert(r@.take(i + 1).drop_last() =~= r@.take(i as int));
        if same_text(r[i].label.as_str(), label) {
            n = n + 1;
        }
        i = i + 1;
    }
    assert(r@.take(i as int) =~= r@);
    n
}

pub fn volume_details(b: &TextMap<u64>, c: &TextMap<u64>) -> (r: Vec<VolumeDetail>)
    requires
        b.wf(),
        c.wf(),
    ensures
        is_volume_detail(r@, b@, c@),
{
    let mut r: Vec<VolumeDetail> = Vec::new();
    let count = c.len();
    let mut i: usize = 0;
    proof {
        c.lemma_order();
        c.lemma_positions();
    }
    while i < count
        invariant
            b.wf(),
            c.wf(),
            count == c.key_seq().len(),
            i <= count,
            r@.len() == i,
            forall|j: int|
                0 <= j < i ==> {
                    let key = (#[trigger] r@[j]).key@;
                    let baseline = baseline_of(b@, key);
                    &&& key == c.key_seq()[j]
                    &&& r@[j].baseline_requests == baseline
                    &&& r@[j].current_requests == c@[key]
                    &&& r@[j].ratio == volume_ratio(baseline, c@[key])
                    &&& r@[j].label@ == volume_label(baseline, c@[key])
                },
        decreases count - i,
    {
        let key = c.key_at(i).clone();
        let current = *c.value_at(i);
        let baseline = match b.get(key.as_str()) {
            Some(n) => Some(*n),
            None => None,
        };
        let (ratio, label) = match baseline {
            None => (None, "new"),
            Some(n) => if n < MIN_BASELINE_REQUESTS {
                (None, "low-baseline")
            } else {
                (
                    Some(Ratio { numerator: current, denominator: n }),
                    if is_elevated(to_double(current as u128), to_double(n as u128)) {
                        "elevated"
                    } else {
                        "unchanged"
                    },
                )
            },
        };
        r.push(
            VolumeDetail {
                key,
                baseline_requests: baseline,
                current_requests: current,
                ratio,
                label: label.to_owned(),
            },
        );
        i = i + 1;
    }
    assert(detail_keys(r@) =~= c.key_seq());
    r
}

/// The requests of each path of a report, the last entry for a path deciding.
pub open spec fn path_volumes(list: Seq<PrivatePathConcentration>) -> Map<Seq<char>, u64>
    decreases list.len(),
{
    if list.len() == 0 {
        Map::empty()
    } else {
        path_volumes(list.drop_last()).insert(list.last().uri_path@, list.last().summary.requests)
    }
}

pub open spec fn source_volumes(list: Seq<PrivateSourceConcentration>) -> Map<Seq<char>, u64>
    decreases list.len(),
{
    if list.len() == 0 {
        Map::empty()
    } else {
        source_volumes(list.drop_last()).insert(list.last().source_ip@, list.last().requests)
    }
}

fn volumes_of_paths(list: &Vec<PrivatePathConcentration>) -> (r: TextMap<u64>)
    ensures
        r.wf(),
        r@ == path_volumes(list@),
{
    let mut r: TextMap<u64> = TextMap::new();
    let mut i: usize = 0;
    while i < list.len()
        invariant
            r.wf(),
            i <= list@.len(),
            r@ == path_volumes(list@.take(i as int)),
        decreases list.len() - i,
    {
        assert(list@.take(i + 1).drop_last() =~= list@.take(i as int));
        r.insert(list[i].uri_path.clone(), list[i].summary.requests);
        i = i + 1;
    }
    assert(list@.take(i as int) =~= list@);
    r
}

fn volumes_of_sources(list: &Vec<PrivateSourceConcentration>) -> (r: TextMap<u64>)
    ensures
        r.wf(),
        r@ == source_volumes(list@),
{
    let mut r: TextMap<u64> = TextMap::new();
    let mut i: usize = 0;
    while i < list.len()
        invariant
            r.wf(),
            i <= list@.len(),
            r@ == source_volumes(list@.take(i as int)),
        decreases list.len() - i,
    {
        assert(list@.take(i + 1).drop_last() =~= list@.take(i as int));
        r.insert(list[i].source_ip.clone(), list[i].requests);
        i = i + 1;
    }
    assert(list@.take(i as int) =~= list@);
    r
}

/// Twice a median, its values and their sum taken as double-precision numbers.
pub open spec fn doubled(m: Median) -> nat {
    as_double(as_double(m.lower as nat) + as_double(m.upper as nat))
}

fn double_of(m: Median) -> (r: u128)
    ensures
        r == doubled(m),
        r < 0x10_0000_0000_0000_0000,
{
    to_double(to_double(m.lower as u128) + to_double(m.upper as u128))
}

pub open spec fn median_change(b: Option<Median>, c: Option<Median>) -> Option<MedianChange> {
    match (b, c) {
        (Some(x), Some(y)) => if doubled(x) == 0 {
            None
        } else {
            Some(MedianChange { baseline: x, current: y })
        },
        _ => None,
    }
}

/// Whether a comparison of two volume reports says how they differ.
pub open spec fn is_concentration_delta(
    r: (ConcentrationDeltaSummary, ConcentrationDeltaPrivate),
    b: PrivateRequestConcentrationReport,
    c: PrivateRequestConcentrationReport,
) -> bool {
    let bm = b.summary.requests_per_minute;
    let cm = c.summary.requests_per_minute;
    let change = median_change(bm.median_requests_per_minute, cm.median_requests_per_minute);
    &&& is_volume_detail(r.1.paths@, path_volumes(b.paths@), path_volumes(c.paths@))
    &&& is_volume_detail(
        r.1.source_ips@,
        source_volumes(b.source_ips@),
        source_volumes(c.source_ips@),
    )
    &&& r.0.available
    &&& r.0.reason is None
    &&& r.0.elevated_paths == labelled(r.1.paths@, "elevated"@)
    &&& r.0.elevated_source_ips == labelled(r.1.source_ips@, "elevated"@)
    &&& r.0.low_baseline_paths == labelled(r.1.paths@, "low-baseline"@)
    &&& r.0.low_baseline_source_ips == labelled(r.1.source_ips@, "low-baseline"@)
    &&& r.0.median_rpm_ratio == change
    &&& r.0.median_rpm_elevated == (match change {
        Some(m) => Some(reaches_elevated(doubled(m.current), doubled(m.baseline))),
        None => None,
    })
    &&& r.0.peak_rpm_delta == (match (bm.peak_requests_per_minute, cm.peak_requests_per_minute) {
        (Some(x), Some(y)) => Some(signed_difference(x, y)),
        _ => None,
    })
    &&& r.0.top_ten_paths_share_delta == Some(
        ShareChange {
            baseline: b.summary.top_ten_paths_request_share,
            current: c.summary.top_ten_paths_request_share,
        },
    )
    &&& r.0.top_ten_source_ips_share_delta == Some(
        ShareChange {
            baseline: b.summary.top_ten_source_ips_request_share,
            current: c.summary.top_ten_source_ips_request_share,
        },
    )
}

pub open spec fn no_concentration_delta(
    r: (ConcentrationDeltaSummary, ConcentrationDeltaPrivate),
) -> bool {
    &&& !r.0.available
    &&& opt_text(r.0.reason) == Some(
        "request-concentration.json is unavailable for one or both runs"@,
    )
    &&& r.0.elevated_paths == 0
    &&& r.0.elevated_source_ips == 0
    &&& r.0.low_baseline_paths == 0
    &&& r.0.low_baseline_source_ips == 0
    &&& r.0.median_rpm_ratio is None
    &&& r.0.median_rpm_elevated is None
    &&& r.0.peak_rpm_delta is None
    &&& r.0.top_ten_paths_share_delta is None
    &&& r.0.top_ten_source_ips_share_delta is None
    &&& r.1.paths@.len() == 0
    &&& r.1.source_ips@.len() == 0
}

pub fn concentration_delta(
    b: Option<&PrivateRequestConcentrationReport>,
    c: Option<&PrivateRequestConcentrationReport>,
) -> (r: (ConcentrationDeltaSummary, ConcentrationDeltaPrivate))
    ensures
        match (b, c) {
            (Some(x), Some(y)) => is_concentration_delta(r, *x, *y),
            _ => no_concentration_delta(r),
        },
{
    let (b, c) = match (b, c) {
        (Some(b), Some(c)) => (b, c),
        _ => {
            return (
                ConcentrationDeltaSummary {
                    available: false,
                    reason: Some(
                        "request-concentration.json is unavailable for one or both runs".to_owned(),
                    ),
                    elevated_paths: 0,
                    elevated_source_ips: 0,
                    low_baseline_paths: 0,
                    low_baseline_source_ips: 0,
                    median_rpm_ratio: None,
                    median_rpm_elevated: None,
                    peak_rpm_delta: None,
                    top_ten_paths_share_delta: None,
                    top_ten_source_ips_share_delta: None,
                },
                ConcentrationDeltaPrivate { paths: Vec::new(), source_ips: Vec::new() },
            );
        },
    };
    let paths = volume_details(&volumes_of_paths(&b.paths), &volumes_of_paths(&c.paths));
    let sources = volume_details(
        &volumes_of_sources(&b.source_ips),
        &volumes_of_sources(&c.source_ips),
    );
    let before = &b.summary.requests_per_minute;
    let after = &c.summary.requests_per_minute;
    let median_rpm_ratio = match (
        before.median_requests_per_minute,
        after.median_requests_per_minute,
    ) {
        (Some(x), Some(y)) => if double_of(x) == 0 {
            None
        } else {
            Some(MedianChange { baseline: x, current: y })
        },
        _ => None,
    };
    let median_rpm_elevated = match median_rpm_ratio {
        Some(m) => Some(is_elevated(double_of(m.current), double_of(m.baseline))),
        None => None,
    };
    let peak_rpm_delta = match (before.peak_requests_per_minute, after.peak_requests_per_minute) {
        (Some(x), Some(y)) => Some(difference_of(x, y)),
        _ => None,
    };
    (
        ConcentrationDeltaSummary {
            available: true,
            reason: None,
            elevated_paths: count_labelled(&paths, "elevated"),
            elevated_source_ips: count_labelled(&sources, "elevated"),
            low_baseline_paths: count_labelled(&paths, "low-baseline"),
            low_baseline_source_ips: count_labelled(&sources, "low-baseline"),
            median_rpm_ratio,
            median_rpm_elevated,
            peak_rpm_delta,
            top_ten_paths_share_delta: Some(
                ShareChange {
                    baseline: b.summary.top_ten_paths_request_share,
                    current: c.summary.top_ten_paths_request_share,
                },
            ),
            top_ten_source_ips_share_delta: Some(
                ShareChange {
                    baseline: b.summary.top_ten_source_ips_request_share,
                    current: c.summary.top_ten_source_ips_request_share,
                },
            ),
        },
        ConcentrationDeltaPrivate { paths, source_ips: sources },
    )
}

pub open spec fn safety_text() -> Seq<char> {
    "First-seen entities and elevated volume are triage context only. They are not determinations of a denial-of-service attempt, attack, abuse, exploitation, compromise, or attacker identity; new means review, not malicious."@
}

pub fn safety_note() -> (r: &'static str)
    ensures
        r@ == safety_text(),
{
    "First-seen entities and elevated volume are triage context only. They are not determinations of a denial-of-service attempt, attack, abuse, exploitation, compromise, or attacker identity; new means review, not malicious."
}

fn copied(value: &Option<String>) -> (r: Option<String>)
    ensures
        r == *value,
{
    match value {
        Some(v) => Some(v.clone()),
        None => None,
    }
}

/// Whether one provenance says the same as another.
pub open spec fn same_run(a: RunProvenance, b: RunProvenance) -> bool {
    &&& a.shenron_version == b.shenron_version
    &&& a.telemetry_profile == b.telemetry_profile
    &&& a.nuclei_revision == b.nuclei_revision
    &&& a.filter_from == b.filter_from
    &&& a.filter_to == b.filter_to
    &&& a.artifacts_sha256@ == b.artifacts_sha256@
}

fn copied_run(run: &RunProvenance) -> (r: RunProvenance)
    ensures
        same_run(r, *run),
{
    let mut hashes: Vec<(String, Option<String>)> = Vec::new();
    let mut i: usize = 0;
    while i < run.artifacts_sha256.len()
        invariant
            i <= run.artifacts_sha256@.len(),
            hashes@ == run.artifacts_sha256@.take(i as int),
        decreases run.artifacts_sha256.len() - i,
    {
        let entry = &run.artifacts_sha256[i];
        hashes.push((entry.0.clone(), copied(&entry.1)));
        assert(run.artifacts_sha256@.take(i + 1) =~= run.artifacts_sha256@.take(i as int).push(
            run.artifacts_sha256@[i as int],
        ));
        i = i + 1;
    }
    assert(run.artifacts_sha256@.take(i as int) =~= run.artifacts_sha256@);
    RunProvenance {
        shenron_version: copied(&run.shenron_version),
        telemetry_profile: copied(&run.telemetry_profile),
        nuclei_revision: copied(&run.nuclei_revision),
        filter_from: copied(&run.filter_from),
        filter_to: copied(&run.filter_to),
        artifacts_sha256: hashes,
    }
}

/// Compares two runs: what may be shared, and apart from it what may not.
pub fn compare_runs(baseline: &RunArtifacts, current: &RunArtifacts) -> (r: TemporalComparison)
    requires
        baseline.cves matches Some(map) ==> map.wf(),
        current.cves matches Some(map) ==> map.wf(),
    ensures
        r.sanitized.report_kind@ == "SANITIZED_TEMPORAL_COMPARISON"@,
        r.private.report_kind@ == "TEMPORAL_COMPARISON_PRIVATE"@,
        r.sanitized.safety_note@ == safety_text(),
        r.private.safety_note@ == safety_text(),
        same_run(r.sanitized.provenance.baseline, baseline.provenance),
        same_run(r.sanitized.provenance.current, current.provenance),
        same_run(r.private.provenance.baseline, baseline.provenance),
        same_run(r.private.provenance.current, current.provenance),
        texts(r.sanitized.comparability.reasons@) == incomparable(*baseline, *current),
        r.sanitized.comparability.comparable == (incomparable(*baseline, *current).len() == 0),
        r.sanitized.comparability.kind@ == comparison_kind(*baseline, *current),
        match (baseline.cves, current.cves) {
            (Some(x), Some(y)) => is_cve_diff(
                r.sanitized.cve_diff,
                cve_models(x@),
                cve_models(y@),
            ),
            _ => no_cve_diff(r.sanitized.cve_diff),
        },
        match (baseline.findings, current.findings) {
            (Some(x), Some(y)) => is_first_seen(
                (r.sanitized.first_seen_counts, r.private.first_seen_entities),
                x@,
                y@,
            ),
            (None, _) => nothing_seen(
                (r.sanitized.first_seen_counts, r.private.first_seen_entities),
                "baseline private-findings.jsonl is unavailable"@,
            ),
            (Some(_), None) => nothing_seen(
                (r.sanitized.first_seen_counts, r.private.first_seen_entities),
                "current private-findings.jsonl is unavailable"@,
            ),
        },
        match (baseline.concentration, current.concentration) {
            (Some(x), Some(y)) => is_concentration_delta(
                (r.sanitized.concentration_delta, r.private.concentration_delta_detail),
                x,
                y,
            ),
            _ => no_concentration_delta(
                (r.sanitized.concentration_delta, r.private.concentration_delta_detail),
            ),
        },
{
    let (first_seen_counts, first_seen_entities) = first_seen(
        baseline.findings.as_ref(),
        current.findings.as_ref(),
    );
    let (delta, detail) = concentration_delta(
        baseline.concentration.as_ref(),
        current.concentration.as_ref(),
    );
    TemporalComparison {
        sanitized: SanitizedTemporalComparison {
            report_kind: "SANITIZED_TEMPORAL_COMPARISON".to_owned(),
            safety_note: safety_note().to_owned(),
            provenance: ComparisonProvenance {
                baseline: copied_run(&baseline.provenance),
                current: copied_run(&current.provenance),
            },
            comparability: comparability(baseline, current),
            cve_diff: cve_diff(baseline.cves.as_ref(), current.cves.as_ref()),
            first_seen_counts,
            concentration_delta: delta,
        },
        private: PrivateTemporalComparison {
            report_kind: "TEMPORAL_COMPARISON_PRIVATE".to_owned(),
            safety_note: safety_note().to_owned(),
            provenance: ComparisonProvenance {
                baseline: copied_run(&baseline.provenance),
                current: copied_run(&current.provenance),
            },
            first_seen_entities,
            concentration_delta_detail: detail,
        },
    }
}

} // verus!
