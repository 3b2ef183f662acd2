//! Opt-in, allowlisted measurement context of a run. Missing metadata is never inferred.

use crate::candidate::read_rfc3339;
use crate::comparison::{number_text, text_at};
use crate::digest::{digest, digest_text};
use crate::event::Timestamp;
use crate::json::{
    compact_text, field2, field3, field_of, item_models, json_from_text, whole_number, Json,
    JsonModel,
};
use crate::numbers::floor_quotient;
use crate::text::{parse_unsigned, same_text, texts, unsigned_value};
use vstd::prelude::*;
use vstd::string::*;
use vstd::utf8::encode_utf8;

verus! {

broadcast use vstd::string::group_string_axioms;

pub const NOTE: &'static str =
    "Recorded measurement conditions, not a claim that runs describe the same service or that a change is a finding. Review coverage, exclusions, caps, field availability and frozen inputs before interpreting deltas. Missing facts remain unavailable; equal facts do not prove comparable populations.";

/// What is recorded of a run, in the order of the names.
#[derive(Clone, Copy, Debug, PartialEq, Eq, Structural)]
pub enum RecordedFact {
    AnalyzedRequests,
    ApprovedTemplates,
    CorpusScopeAnnotation,
    FilesAnalyzed,
    FilesSkippedAsProcessed,
    KevReport,
    MaxPaths,
    MaxSourceIps,
    MaxSourcePathPairs,
    MaxSourceSegments,
    MinuteCapOmissions,
    NucleiReport,
    NucleiRevision,
    ObservedSpanSeconds,
    OutsideWindow,
    PairCapOmissions,
    ParseErrors,
    PathCapOmissions,
    PopulatedClientIp,
    PopulatedHeaders,
    PopulatedQuery,
    RecordedStatusShare,
    ResponseObservations,
    ShenronVersion,
    SigmaRulesEvaluated,
    SourceCapOmissions,
    StatusUnavailable,
    TelemetryProfile,
    TemplateSelection,
    TriagePolicy,
    TrustedProxyConfiguration,
    UndatedExcluded,
    UndatedObservations,
    WindowSeconds,
    WindowStartSecondOfDayUtc,
    WindowStartWeekdayUtc,
}

/// How many facts there are.
pub const FACTS: usize = 36;

pub open spec fn all_facts() -> Seq<RecordedFact> {
    seq![
        RecordedFact::AnalyzedRequests,
        RecordedFact::ApprovedTemplates,
        RecordedFact::CorpusScopeAnnotation,
        RecordedFact::FilesAnalyzed,
        RecordedFact::FilesSkippedAsProcessed,
        RecordedFact::KevReport,
        RecordedFact::MaxPaths,
        RecordedFact::MaxSourceIps,
        RecordedFact::MaxSourcePathPairs,
        RecordedFact::MaxSourceSegments,
        RecordedFact::MinuteCapOmissions,
        RecordedFact::NucleiReport,
        RecordedFact::NucleiRevision,
        RecordedFact::ObservedSpanSeconds,
        RecordedFact::OutsideWindow,
        RecordedFact::PairCapOmissions,
        RecordedFact::ParseErrors,
        RecordedFact::PathCapOmissions,
        RecordedFact::PopulatedClientIp,
        RecordedFact::PopulatedHeaders,
        RecordedFact::PopulatedQuery,
        RecordedFact::RecordedStatusShare,
        RecordedFact::ResponseObservations,
        RecordedFact::ShenronVersion,
        RecordedFact::SigmaRulesEvaluated,
        RecordedFact::SourceCapOmissions,
        RecordedFact::StatusUnavailable,
        RecordedFact::TelemetryProfile,
        RecordedFact::TemplateSelection,
        RecordedFact::TriagePolicy,
        RecordedFact::TrustedProxyConfiguration,
        RecordedFact::UndatedExcluded,
        RecordedFact::UndatedObservations,
        RecordedFact::WindowSeconds,
        RecordedFact::WindowStartSecondOfDayUtc,
        RecordedFact::WindowStartWeekdayUtc,
    ]
}

impl RecordedFact {
    pub fn all() -> (r: Vec<RecordedFact>)
        ensures
            r@ == all_facts(),
            r@.len() == FACTS,
    {
        vec![
            RecordedFact::AnalyzedRequests,
            RecordedFact::ApprovedTemplates,
            RecordedFact::CorpusScopeAnnotation,
            RecordedFact::FilesAnalyzed,
            RecordedFact::FilesSkippedAsProcessed,
            RecordedFact::KevReport,
            RecordedFact::MaxPaths,
            RecordedFact::MaxSourceIps,
            RecordedFact::MaxSourcePathPairs,
            RecordedFact::MaxSourceSegments,
            RecordedFact::MinuteCapOmissions,
            RecordedFact::NucleiReport,
            RecordedFact::NucleiRevision,
            RecordedFact::ObservedSpanSeconds,
            RecordedFact::OutsideWindow,
            RecordedFact::PairCapOmissions,
            RecordedFact::ParseErrors,
            RecordedFact::PathCapOmissions,
            RecordedFact::PopulatedClientIp,
            RecordedFact::PopulatedHeaders,
            RecordedFact::PopulatedQuery,
            RecordedFact::RecordedStatusShare,
            RecordedFact::ResponseObservations,
            RecordedFact::ShenronVersion,
            RecordedFact::SigmaRulesEvaluated,
            RecordedFact::SourceCapOmissions,
            RecordedFact::StatusUnavailable,
            RecordedFact::TelemetryProfile,
            RecordedFact::TemplateSelection,
            RecordedFact::TriagePolicy,
            RecordedFact::TrustedProxyConfiguration,
            RecordedFact::UndatedExcluded,
            RecordedFact::UndatedObservations,
            RecordedFact::WindowSeconds,
            RecordedFact::WindowStartSecondOfDayUtc,
            RecordedFact::WindowStartWeekdayUtc,
        ]
    }

    /// The place of a fact in the list of facts.
    pub open spec fn place(self) -> int {
        match self {
            RecordedFact::AnalyzedRequests => 0,
            RecordedFact::ApprovedTemplates => 1,
            RecordedFact::CorpusScopeAnnotation => 2,
            RecordedFact::FilesAnalyzed => 3,
            RecordedFact::FilesSkippedAsProcessed => 4,
            RecordedFact::KevReport => 5,
            RecordedFact::MaxPaths => 6,
            RecordedFact::MaxSourceIps => 7,
            RecordedFact::MaxSourcePathPairs => 8,
            RecordedFact::MaxSourceSegments => 9,
            RecordedFact::MinuteCapOmissions => 10,
            RecordedFact::NucleiReport => 11,
            RecordedFact::NucleiRevision => 12,
            RecordedFact::ObservedSpanSeconds => 13,
            RecordedFact::OutsideWindow => 14,
            RecordedFact::PairCapOmissions => 15,
            RecordedFact::ParseErrors => 16,
            RecordedFact::PathCapOmissions => 17,
            RecordedFact::PopulatedClientIp => 18,
            RecordedFact::PopulatedHeaders => 19,
            RecordedFact::PopulatedQuery => 20,
            RecordedFact::RecordedStatusShare => 21,
            RecordedFact::ResponseObservations => 22,
            RecordedFact::ShenronVersion => 23,
            RecordedFact::SigmaRulesEvaluated => 24,
            RecordedFact::SourceCapOmissions => 25,
            RecordedFact::StatusUnavailable => 26,
            RecordedFact::TelemetryProfile => 27,
            RecordedFact::TemplateSelection => 28,
            RecordedFact::TriagePolicy => 29,
            RecordedFact::TrustedProxyConfiguration => 30,
            RecordedFact::UndatedExcluded => 31,
            RecordedFact::UndatedObservations => 32,
            RecordedFact::WindowSeconds => 33,
            RecordedFact::WindowStartSecondOfDayUtc => 34,
            RecordedFact::WindowStartWeekdayUtc => 35,
        }
    }

    pub fn rank(self) -> (r: usize)
        ensures
            r == self.place(),
            r < FACTS,
    {
        match self {
            RecordedFact::AnalyzedRequests => 0,
            RecordedFact::ApprovedTemplates => 1,
            RecordedFact::CorpusScopeAnnotation => 2,
            RecordedFact::FilesAnalyzed => 3,
            RecordedFact::FilesSkippedAsProcessed => 4,
            RecordedFact::KevReport => 5,
            RecordedFact::MaxPaths => 6,
            RecordedFact::MaxSourceIps => 7,
            RecordedFact::MaxSourcePathPairs => 8,
            RecordedFact::MaxSourceSegments => 9,
            RecordedFact::MinuteCapOmissions => 10,
            RecordedFact::NucleiReport => 11,
            RecordedFact::NucleiRevision => 12,
            RecordedFact::ObservedSpanSeconds => 13,
            RecordedFact::OutsideWindow => 14,
            RecordedFact::PairCapOmissions => 15,
            RecordedFact::ParseErrors => 16,
            RecordedFact::PathCapOmissions => 17,
            RecordedFact::PopulatedClientIp => 18,
            RecordedFact::PopulatedHeaders => 19,
            RecordedFact::PopulatedQuery => 20,
            RecordedFact::RecordedStatusShare => 21,
            RecordedFact::ResponseObservations => 22,
            RecordedFact::ShenronVersion => 23,
            RecordedFact::SigmaRulesEvaluated => 24,
            RecordedFact::SourceCapOmissions => 25,
            RecordedFact::StatusUnavailable => 26,
            RecordedFact::TelemetryProfile => 27,
            RecordedFact::TemplateSelection => 28,
            RecordedFact::TriagePolicy => 29,
            RecordedFact::TrustedProxyConfiguration => 30,
            RecordedFact::UndatedExcluded => 31,
            RecordedFact::UndatedObservations => 32,
            RecordedFact::WindowSeconds => 33,
            RecordedFact::WindowStartSecondOfDayUtc => 34,
            RecordedFact::WindowStartWeekdayUtc => 35,
        }
    }

    pub open spec fn name(self) -> Seq<char> {
        match self {
            RecordedFact::AnalyzedRequests => "analyzed_requests"@,
            RecordedFact::ApprovedTemplates => "approved_templates"@,
            RecordedFact::CorpusScopeAnnotation => "corpus_scope_annotation"@,
            RecordedFact::FilesAnalyzed => "files_analyzed"@,
            RecordedFact::FilesSkippedAsProcessed => "files_skipped_as_processed"@,
            RecordedFact::KevReport => "kev_report"@,
            RecordedFact::MaxPaths => "max_paths"@,
            RecordedFact::MaxSourceIps => "max_source_ips"@,
            RecordedFact::MaxSourcePathPairs => "max_source_path_pairs"@,
            RecordedFact::MaxSourceSegments => "max_source_segments"@,
            RecordedFact::MinuteCapOmissions => "minute_cap_omissions"@,
            RecordedFact::NucleiReport => "nuclei_report"@,
            RecordedFact::NucleiRevision => "nuclei_revision"@,
            RecordedFact::ObservedSpanSeconds => "observed_span_seconds"@,
            RecordedFact::OutsideWindow => "outside_window"@,
            RecordedFact::PairCapOmissions => "pair_cap_omissions"@,
            RecordedFact::ParseErrors => "parse_errors"@,
            RecordedFact::PathCapOmissions => "path_cap_omissions"@,
            RecordedFact::PopulatedClientIp => "populated_client_ip"@,
            RecordedFact::PopulatedHeaders => "populated_headers"@,
            RecordedFact::PopulatedQuery => "populated_query"@,
            RecordedFact::RecordedStatusShare => "recorded_status_share"@,
            RecordedFact::ResponseObservations => "response_observations"@,
            RecordedFact::ShenronVersion => "shenron_version"@,
            RecordedFact::SigmaRulesEvaluated => "sigma_rules_evaluated"@,
            RecordedFact::SourceCapOmissions => "source_cap_omissions"@,
            RecordedFact::StatusUnavailable => "status_unavailable"@,
            RecordedFact::TelemetryProfile => "telemetry_profile"@,
            RecordedFact::TemplateSelection => "template_selection"@,
            RecordedFact::TriagePolicy => "triage_policy"@,
            RecordedFact::TrustedProxyConfiguration => "trusted_proxy_configuration"@,
            RecordedFact::UndatedExcluded => "undated_excluded"@,
            RecordedFact::UndatedObservations => "undated_observations"@,
            RecordedFact::WindowSeconds => "window_seconds"@,
            RecordedFact::WindowStartSecondOfDayUtc => "window_start_second_of_day_utc"@,
            RecordedFact::WindowStartWeekdayUtc => "window_start_weekday_utc"@,
        }
    }

    pub fn label(self) -> (r: &'static str)
        ensures
            r@ == self.name(),
    {
        match self {
            RecordedFact::AnalyzedRequests => "analyzed_requests",
            RecordedFact::ApprovedTemplates => "approved_templates",
            RecordedFact::CorpusScopeAnnotation => "corpus_scope_annotation",
            RecordedFact::FilesAnalyzed => "files_analyzed",
            RecordedFact::FilesSkippedAsProcessed => "files_skipped_as_processed",
            RecordedFact::KevReport => "kev_report",
            RecordedFact::MaxPaths => "max_paths",
            RecordedFact::MaxSourceIps => "max_source_ips",
            RecordedFact::MaxSourcePathPairs => "max_source_path_pairs",
            RecordedFact::MaxSourceSegments => "max_source_segments",
            RecordedFact::MinuteCapOmissions => "minute_cap_omissions",
            RecordedFact::NucleiReport => "nuclei_report",
            RecordedFact::NucleiRevision => "nuclei_revision",
            RecordedFact::ObservedSpanSeconds => "observed_span_seconds",
            RecordedFact::OutsideWindow => "outside_window",
            RecordedFact::PairCapOmissions => "pair_cap_omissions",
            RecordedFact::ParseErrors => "parse_errors",
            RecordedFact::PathCapOmissions => "path_cap_omissions",
            RecordedFact::PopulatedClientIp => "populated_client_ip",
            RecordedFact::PopulatedHeaders => "populated_headers",
            RecordedFact::PopulatedQuery => "populated_query",
            RecordedFact::RecordedStatusShare => "recorded_status_share",
            RecordedFact::ResponseObservations => "response_observations",
            RecordedFact::ShenronVersion => "shenron_version",
            RecordedFact::SigmaRulesEvaluated => "sigma_rules_evaluated",
            RecordedFact::SourceCapOmissions => "source_cap_omissions",
            RecordedFact::StatusUnavailable => "status_unavailable",
            RecordedFact::TelemetryProfile => "telemetry_profile",
            RecordedFact::TemplateSelection => "template_selection",
            RecordedFact::TriagePolicy => "triage_policy",
            RecordedFact::TrustedProxyConfiguration => "trusted_proxy_configuration",
            RecordedFact::UndatedExcluded => "undated_excluded",
            RecordedFact::UndatedObservations => "undated_observations",
            RecordedFact::WindowSeconds => "window_seconds",
            RecordedFact::WindowStartSecondOfDayUtc => "window_start_second_of_day_utc",
            RecordedFact::WindowStartWeekdayUtc => "window_start_weekday_utc",
        }
    }

    /// Whether a fact is a setting, of which only a digest is kept.
    pub open spec fn digested(self) -> bool {
        self == RecordedFact::CorpusScopeAnnotation ||
            self == RecordedFact::KevReport ||
            self == RecordedFact::NucleiReport ||
            self == RecordedFact::NucleiRevision ||
            self == RecordedFact::ShenronVersion ||
            self == RecordedFact::TelemetryProfile ||
            self == RecordedFact::TemplateSelection ||
            self == RecordedFact::TriagePolicy ||
            self == RecordedFact::TrustedProxyConfiguration
    }

    pub fn is_signature(self) -> (r: bool)
        ensures
            r == self.digested(),
    {
        match self {
            RecordedFact::CorpusScopeAnnotation => true,
            RecordedFact::KevReport => true,
            RecordedFact::NucleiReport => true,
            RecordedFact::NucleiRevision => true,
            RecordedFact::ShenronVersion => true,
            RecordedFact::TelemetryProfile => true,
            RecordedFact::TemplateSelection => true,
            RecordedFact::TriagePolicy => true,
            RecordedFact::TrustedProxyConfiguration => true,
            _ => false,
        }
    }
}

/// The value of a fact.
#[derive(Clone, Debug)]
pub enum FactValue {
    /// A number as the artifact writes it.
    Written(String),
    Whole(i128),
    /// The share of responses with a status: the counts of the status classes as the artifact
    /// writes them, those without a status last.
    Share(Vec<String>),
    /// A digest: settings are compared without exposing their private values.
    Signature(String),
}

pub enum FactModel {
    Written(Seq<char>),
    Whole(int),
    Share(Seq<Seq<char>>),
    Signature(Seq<char>),
}

pub open spec fn fact_model(value: FactValue) -> FactModel {
    match value {
        FactValue::Written(t) => FactModel::Written(t@),
        FactValue::Whole(n) => FactModel::Whole(n as int),
        FactValue::Share(numbers) => FactModel::Share(texts(numbers@)),
        FactValue::Signature(t) => FactModel::Signature(t@),
    }
}

pub open spec fn opt_fact(value: Option<FactValue>) -> Option<FactModel> {
    match value {
        Some(v) => Some(fact_model(v)),
        None => None,
    }
}

/// Where the facts of a run are read from.
struct Run<'a> {
    manifest: &'a Json,
    sanitized: &'a Json,
    metrics: &'a Json,
    summary: &'a Json,
    total_above_zero: bool,
}

pub struct RunModel {
    pub manifest: JsonModel,
    pub sanitized: JsonModel,
    pub metrics: JsonModel,
    pub summary: JsonModel,
    pub total_above_zero: bool,
}

impl<'a> Run<'a> {
    spec fn model(&self) -> RunModel {
        RunModel {
            manifest: self.manifest@,
            sanitized: self.sanitized@,
            metrics: self.metrics@,
            summary: self.summary@,
            total_above_zero: self.total_above_zero,
        }
    }
}

pub open spec fn field_or(j: JsonModel, name: Seq<char>, other: JsonModel) -> JsonModel {
    match field_of(j, name) {
        Some(value) => value,
        None => other,
    }
}

/// A run, given its manifest and its sanitized report. Older reports hold the metrics at the top.
pub open spec fn run_of(
    manifest: JsonModel,
    sanitized: JsonModel,
    total_above_zero: bool,
) -> RunModel {
    let metrics = field_or(sanitized, "metrics"@, sanitized);
    RunModel {
        manifest,
        sanitized,
        metrics,
        summary: field_or(metrics, "request_concentration"@, JsonModel::Null),
        total_above_zero,
    }
}

pub open spec fn written(value: Option<JsonModel>) -> Option<FactModel> {
    match number_text(value) {
        Some(t) => Some(FactModel::Written(t)),
        None => None,
    }
}

/// The digest of a recorded setting; a null stands for none.
pub open spec fn signed(value: Option<JsonModel>) -> Option<FactModel> {
    match value {
        Some(j) => if j is Null {
            None
        } else {
            Some(FactModel::Signature(digest_text(encode_utf8(compact_text(j)))))
        },
        None => None,
    }
}

fn number(value: Option<&Json>) -> (r: Option<FactValue>)
    ensures
        opt_fact(r) == written(model_of(value)),
{
    match value {
        Some(j) => match j.as_number() {
            Some(text) => Some(FactValue::Written(text.clone())),
            None => None,
        },
        None => None,
    }
}

fn signature(value: Option<&Json>) -> (r: Option<FactValue>)
    ensures
        opt_fact(r) == signed(model_of(value)),
{
    match value {
        Some(j) => if j.is_null() {
            None
        } else {
            Some(FactValue::Signature(digest(j.compact().as_str().as_bytes())))
        },
        None => None,
    }
}

pub open spec fn model_of(value: Option<&Json>) -> Option<JsonModel> {
    match value {
        Some(j) => Some(j@),
        None => None,
    }
}

/// Whether a rate is that of buckets of a minute.
pub open spec fn is_minute_rate(rate: JsonModel) -> bool {
    field_of(rate, "bucket_width_seconds"@) matches Some(width) && whole_number(width) == Some(
        60nat,
    )
}

pub open spec fn first_minute_rate(rates: Seq<JsonModel>) -> Option<JsonModel>
    decreases rates.len(),
{
    if rates.len() == 0 {
        None
    } else if is_minute_rate(rates[0]) {
        Some(rates[0])
    } else {
        first_minute_rate(rates.skip(1))
    }
}

/// How many observations found no place in a bucket of a minute.
pub open spec fn minute_omissions(summary: JsonModel) -> Option<JsonModel> {
    match field_of(summary, "request_rates"@) {
        Some(JsonModel::List(rates)) => match first_minute_rate(rates) {
            Some(rate) => field_of(rate, "observations_beyond_bucket_cap"@),
            None => None,
        },
        _ => None,
    }
}

fn minute_rate(summary: &Json) -> (r: Option<&Json>)
    ensures
        model_of(r) == minute_omissions(summary@),
{
    let rates = match summary.get("request_rates") {
        Some(value) => match value.as_list() {
            Some(rates) => rates,
            None => {
                return None;
            },
        },
        None => {
            return None;
        },
    };
    let ghost models = item_models(rates@);
    assert(models.skip(0) =~= models);
    let mut i: usize = 0;
    while i < rates.len()
        invariant
            models == item_models(rates@),
            i <= rates@.len(),
            first_minute_rate(models) == first_minute_rate(models.skip(i as int)),
            field_of(summary@, "request_rates"@) == Some(JsonModel::List(models)),
        decreases rates.len() - i,
    {
        let rate = &rates[i];
        assert(models.skip(i as int)[0] == rate@);
        assert(models.skip(i as int).skip(1) =~= models.skip(i + 1));
        let width = match rate.get("bucket_width_seconds") {
            Some(width) => width.as_u64(),
            None => None,
        };
        let is_minute = match width {
            Some(n) => n == 60,
            None => false,
        };
        if is_minute {
            return rate.get("observations_beyond_bucket_cap");
        }
        i = i + 1;
    }
    None
}

/// The numbers at the fields of an object, where each of them is one.
pub open spec fn numbers_at(j: JsonModel, names: Seq<Seq<char>>) -> Option<Seq<Seq<char>>>
    decreases names.len(),
{
    if names.len() == 0 {
        Some(seq![])
    } else {
        match (numbers_at(j, names.drop_last()), number_text(field_of(j, names.last()))) {
            (Some(before), Some(t)) => Some(before.push(t)),
            _ => None,
        }
    }
}

pub open spec fn status_names() -> Seq<Seq<char>> {
    seq![
        "informational"@,
        "success"@,
        "redirection"@,
        "client_error"@,
        "server_error"@,
        "other"@,
        "unavailable"@,
    ]
}

/// The counts of the status classes of a summary, as it writes them.
pub open spec fn status_numbers_of(summary: JsonModel) -> Option<Seq<Seq<char>>> {
    match field2(summary, "response_outcomes"@, "counts"@) {
        Some(counts) => numbers_at(counts, status_names()),
        None => None,
    }
}

proof fn lemma_numbers_prefix(j: JsonModel, names: Seq<Seq<char>>, n: int)
    requires
        0 <= n <= names.len(),
        numbers_at(j, names.take(n)) is None,
    ensures
        numbers_at(j, names) is None,
    decreases names.len() - n,
{
    if n == names.len() {
        assert(names.take(n) =~= names);
    } else {
        assert(names.take(n + 1).drop_last() =~= names.take(n));
        lemma_numbers_prefix(j, names, n + 1);
    }
}

/// The counts of the status classes of a summary, as it writes them, in the order informational,
/// success, redirection, client error, server error, other, unavailable.
pub fn status_numbers(summary: &Json) -> (r: Option<Vec<String>>)
    ensures
        match r {
            Some(numbers) => status_numbers_of(summary@) == Some(texts(numbers@)),
            None => status_numbers_of(summary@) is None,
        },
{
    let counts = match summary.get2("response_outcomes", "counts") {
        Some(counts) => counts,
        None => {
            return None;
        },
    };
    let names: Vec<&str> = vec![
        "informational",
        "success",
        "redirection",
        "client_error",
        "server_error",
        "other",
        "unavailable",
    ];
    let ghost wanted = status_names();
    let mut numbers: Vec<String> = Vec::new();
    assert(texts(numbers@) =~= Seq::<Seq<char>>::empty());
    let mut i: usize = 0;
    while i < names.len()
        invariant
            wanted == status_names(),
            names@.len() == wanted.len(),
            forall|k: int| 0 <= k < names@.len() ==> (#[trigger] names@[k])@ == wanted[k],
            i <= names@.len(),
            numbers_at(counts@, wanted.take(i as int)) == Some(texts(numbers@)),
            status_numbers_of(summary@) == numbers_at(counts@, wanted),
        decreases names.len() - i,
    {
        let name = names[i];
        proof {
            assert(wanted.take(i + 1).drop_last() =~= wanted.take(i as int));
            assert(wanted.take(i + 1).last() == name@);
        }
        let text = match counts.get(name) {
            Some(value) => match value.as_number() {
                Some(text) => text.clone(),
                None => {
                    proof {
                        lemma_numbers_prefix(counts@, wanted, i + 1);
                    }
                    return None;
                },
            },
            None => {
                proof {
                    lemma_numbers_prefix(counts@, wanted, i + 1);
                }
                return None;
            },
        };
        let ghost before = numbers@;
        numbers.push(text);
        assert(texts(numbers@) =~= texts(before).push(text@));
        i = i + 1;
    }
    assert(wanted.take(i as int) =~= wanted);
    Some(numbers)
}

pub open spec fn instant_at(value: Option<JsonModel>) -> Option<Timestamp> {
    crate::candidate::time_of(text_at(value))
}

fn time_at(value: Option<&Json>) -> (r: Option<Timestamp>)
    ensures
        r == instant_at(model_of(value)),
{
    match value {
        Some(j) => match j.as_text() {
            Some(text) => match read_rfc3339(text.as_str()) {
                Some(p) => Some(Timestamp { seconds: p.0, nanos: p.1 }),
                None => None,
            },
            None => None,
        },
        None => None,
    }
}

pub open spec fn observed_time(metrics: JsonModel, name: Seq<char>) -> Option<Timestamp> {
    instant_at(field_of(metrics, name))
}

/// A bound of the window of a run: that of the manifest unless it is null, else that of the
/// metrics, else that of the report.
pub open spec fn window_time(run: RunModel, name: Seq<char>) -> Option<Timestamp> {
    let chosen = field2(run.manifest, "hunt_parameters"@, name);
    instant_at(
        if chosen is Some && !(chosen.unwrap() is Null) {
            chosen
        } else if field_of(run.metrics, name) is Some {
            field_of(run.metrics, name)
        } else {
            field_of(run.sanitized, name)
        },
    )
}

fn filter_time(run: &Run, name: &str) -> (r: Option<Timestamp>)
    ensures
        r == window_time(run.model(), name@),
{
    if let Some(chosen) = run.manifest.get2("hunt_parameters", name) {
        if !chosen.is_null() {
            return time_at(Some(chosen));
        }
    }
    match run.metrics.get(name) {
        Some(value) => time_at(Some(value)),
        None => time_at(run.sanitized.get(name)),
    }
}

pub open spec fn second_of_day(t: Timestamp) -> int {
    t.seconds as int % 86400
}

/// The day of the week in UTC, counted from Monday.
pub open spec fn weekday(t: Timestamp) -> int {
    (t.seconds as int / 86400 + 3) % 7
}

/// A leap second that lies between two points in time of a day counts as a second.
pub open spec fn leap_seconds(a: Timestamp, b: Timestamp) -> int {
    if second_of_day(b) > second_of_day(a) && a.nanos >= 1_000_000_000 {
        1
    } else if second_of_day(b) < second_of_day(a) && b.nanos >= 1_000_000_000 {
        -1
    } else {
        0
    }
}

/// The whole seconds from one point in time to another, rounded towards zero.
pub open spec fn seconds_between(a: Timestamp, b: Timestamp) -> int {
    let nanos = (b.seconds - a.seconds + leap_seconds(a, b)) * 1_000_000_000 + (b.nanos - a.nanos);
    if nanos >= 0 {
        nanos / 1_000_000_000
    } else {
        -((-nanos) / 1_000_000_000)
    }
}

pub open spec fn spanned(a: Option<Timestamp>, b: Option<Timestamp>) -> Option<FactModel> {
    match (a, b) {
        (Some(x), Some(y)) => Some(FactModel::Whole(seconds_between(x, y))),
        _ => None,
    }
}

fn clock_seconds(seconds: i64) -> (r: i64)
    ensures
        r == seconds as int % 86400,
        0 <= r < 86400,
{
    let days = floor_quotient(seconds, 86400);
    (seconds as i128 - 86400 * (days as i128)) as i64
}

fn weekday_of(seconds: i64) -> (r: i64)
    ensures
        r == (seconds as int / 86400 + 3) % 7,
{
    let day = floor_quotient(seconds, 86400) + 3;
    let week = floor_quotient(day, 7);
    day - 7 * week
}

fn span(from: Option<Timestamp>, to: Option<Timestamp>) -> (r: Option<FactValue>)
    ensures
        opt_fact(r) == spanned(from, to),
{
    match (from, to) {
        (Some(a), Some(b)) => {
            let start = clock_seconds(a.seconds);
            let end = clock_seconds(b.seconds);
            let leap: i128 = if end > start && a.nanos >= 1_000_000_000 {
                1
            } else if end < start && b.nanos >= 1_000_000_000 {
                -1
            } else {
                0
            };
            let nanos: i128 = (b.seconds as i128 - a.seconds as i128 + leap) * 1_000_000_000 + (
            b.nanos as i128 - a.nanos as i128);
            let seconds: i128 = if nanos >= 0 {
                nanos / 1_000_000_000
            } else {
                -((-nanos) / 1_000_000_000)
            };
            Some(FactValue::Whole(seconds))
        },
        _ => None,
    }
}

/// The value of a fact in a run, where it is recorded.
pub open spec fn recorded(fact: RecordedFact, run: RunModel) -> Option<FactModel> {
    match fact {
        RecordedFact::AnalyzedRequests => written(field_of(run.metrics, "total_requests_analyzed"@)),
        RecordedFact::ApprovedTemplates => written(field2(run.manifest, "inputs"@, "approved_validated_template_count"@)),
        RecordedFact::CorpusScopeAnnotation => signed(field_of(run.manifest, "corpus_label"@)),
        RecordedFact::FilesAnalyzed => written(field_of(run.metrics, "files_analyzed"@)),
        RecordedFact::FilesSkippedAsProcessed => written(field_of(run.metrics, "files_skipped_as_processed"@)),
        RecordedFact::KevReport => signed(field3(run.manifest, "inputs"@, "kev_report"@, "sha256"@)),
        RecordedFact::MaxPaths => written(field2(run.manifest, "tracking_limits"@, "max_paths"@)),
        RecordedFact::MaxSourceIps => written(field2(run.manifest, "tracking_limits"@, "max_source_ips"@)),
        RecordedFact::MaxSourcePathPairs => written(field2(run.manifest, "tracking_limits"@, "max_source_path_pairs"@)),
        RecordedFact::MaxSourceSegments => written(field2(run.manifest, "tracking_limits"@, "max_source_segments"@)),
        RecordedFact::MinuteCapOmissions => written(minute_omissions(run.summary)),
        RecordedFact::NucleiReport => signed(field3(run.manifest, "inputs"@, "nuclei_report"@, "sha256"@)),
        RecordedFact::NucleiRevision => signed(field_of(run.manifest, "nuclei_revision"@)),
        RecordedFact::ObservedSpanSeconds => spanned(
            observed_time(run.metrics, "earliest_timestamp"@),
            observed_time(run.metrics, "latest_timestamp"@),
        ),
        RecordedFact::OutsideWindow => written(field_of(run.metrics, "requests_outside_time_range"@)),
        RecordedFact::PairCapOmissions => written(field_of(run.summary, "source_path_pairs_beyond_tracking_cap"@)),
        RecordedFact::ParseErrors => written(field_of(run.metrics, "parse_errors"@)),
        RecordedFact::PathCapOmissions => written(field_of(run.summary, "paths_beyond_tracking_cap"@)),
        RecordedFact::PopulatedClientIp => written(field2(run.metrics, "fields_available"@, "client_ip"@)),
        RecordedFact::PopulatedHeaders => written(field2(run.metrics, "fields_available"@, "headers"@)),
        RecordedFact::PopulatedQuery => written(field2(run.metrics, "fields_available"@, "query"@)),
        RecordedFact::RecordedStatusShare => if run.total_above_zero {
            match status_numbers_of(run.summary) {
                Some(numbers) => Some(FactModel::Share(numbers)),
                None => None,
            }
        } else {
            None
        },
        RecordedFact::ResponseObservations => written(field_of(run.summary, "total_requests"@)),
        RecordedFact::ShenronVersion => signed(field_of(run.manifest, "shenron_version"@)),
        RecordedFact::SigmaRulesEvaluated => written(field_of(run.manifest, "sigma_rules_evaluated"@)),
        RecordedFact::SourceCapOmissions => written(field_of(run.summary, "source_ips_beyond_tracking_cap"@)),
        RecordedFact::StatusUnavailable => written(field3(run.summary, "response_outcomes"@, "counts"@, "unavailable"@)),
        RecordedFact::TelemetryProfile => signed(field_of(run.manifest, "telemetry_profile"@)),
        RecordedFact::TemplateSelection => signed(field2(run.manifest, "inputs"@, "template_filter"@)),
        RecordedFact::TriagePolicy => signed(field2(run.manifest, "hunt_parameters"@, "triage_policy"@)),
        RecordedFact::TrustedProxyConfiguration => signed(field2(run.manifest, "hunt_parameters"@, "trusted_proxy_networks"@)),
        RecordedFact::UndatedExcluded => written(field_of(run.metrics, "requests_without_timestamp_excluded"@)),
        RecordedFact::UndatedObservations => written(field2(run.summary, "requests_per_minute"@, "observations_without_timestamp"@)),
        RecordedFact::WindowSeconds => spanned(
            window_time(run, "filter_from"@),
            window_time(run, "filter_to"@),
        ),
        RecordedFact::WindowStartSecondOfDayUtc => match window_time(run, "filter_from"@) {
            Some(t) => Some(FactModel::Whole(second_of_day(t))),
            None => None,
        },
        RecordedFact::WindowStartWeekdayUtc => match window_time(run, "filter_from"@) {
            Some(t) => Some(FactModel::Whole(weekday(t))),
            None => None,
        },
    }
}

fn read_fact(fact: RecordedFact, run: &Run) -> (r: Option<FactValue>)
    ensures
        opt_fact(r) == recorded(fact, run.model()),
{
    match fact {
        RecordedFact::AnalyzedRequests => number(run.metrics.get("total_requests_analyzed")),
        RecordedFact::ApprovedTemplates => number(run.manifest.get2("inputs", "approved_validated_template_count")),
        RecordedFact::CorpusScopeAnnotation => signature(run.manifest.get("corpus_label")),
        RecordedFact::FilesAnalyzed => number(run.metrics.get("files_analyzed")),
        RecordedFact::FilesSkippedAsProcessed => number(run.metrics.get("files_skipped_as_processed")),
        RecordedFact::KevReport => signature(run.manifest.get3("inputs", "kev_report", "sha256")),
        RecordedFact::MaxPaths => number(run.manifest.get2("tracking_limits", "max_paths")),
        RecordedFact::MaxSourceIps => number(run.manifest.get2("tracking_limits", "max_source_ips")),
        RecordedFact::MaxSourcePathPairs => number(run.manifest.get2("tracking_limits", "max_source_path_pairs")),
        RecordedFact::MaxSourceSegments => number(run.manifest.get2("tracking_limits", "max_source_segments")),
        RecordedFact::MinuteCapOmissions => number(minute_rate(run.summary)),
        RecordedFact::NucleiReport => signature(run.manifest.get3("inputs", "nuclei_report", "sha256")),
        RecordedFact::NucleiRevision => signature(run.manifest.get("nuclei_revision")),
        RecordedFact::ObservedSpanSeconds => span(
            time_at(run.metrics.get("earliest_timestamp")),
            time_at(run.metrics.get("latest_timestamp")),
        ),
        RecordedFact::OutsideWindow => number(run.metrics.get("requests_outside_time_range")),
        RecordedFact::PairCapOmissions => number(run.summary.get("source_path_pairs_beyond_tracking_cap")),
        RecordedFact::ParseErrors => number(run.metrics.get("parse_errors")),
        RecordedFact::PathCapOmissions => number(run.summary.get("paths_beyond_tracking_cap")),
        RecordedFact::PopulatedClientIp => number(run.metrics.get2("fields_available", "client_ip")),
        RecordedFact::PopulatedHeaders => number(run.metrics.get2("fields_available", "headers")),
        RecordedFact::PopulatedQuery => number(run.metrics.get2("fields_available", "query")),
        RecordedFact::RecordedStatusShare => if run.total_above_zero {
            match status_numbers(run.summary) {
                Some(numbers) => Some(FactValue::Share(numbers)),
                None => None,
            }
        } else {
            None
        },
        RecordedFact::ResponseObservations => number(run.summary.get("total_requests")),
        RecordedFact::ShenronVersion => signature(run.manifest.get("shenron_version")),
        RecordedFact::SigmaRulesEvaluated => number(run.manifest.get("sigma_rules_evaluated")),
        RecordedFact::SourceCapOmissions => number(run.summary.get("source_ips_beyond_tracking_cap")),
        RecordedFact::StatusUnavailable => number(run.summary.get3("response_outcomes", "counts", "unavailable")),
        RecordedFact::TelemetryProfile => signature(run.manifest.get("telemetry_profile")),
        RecordedFact::TemplateSelection => signature(run.manifest.get2("inputs", "template_filter")),
        RecordedFact::TriagePolicy => signature(run.manifest.get2("hunt_parameters", "triage_policy")),
        RecordedFact::TrustedProxyConfiguration => signature(run.manifest.get2("hunt_parameters", "trusted_proxy_networks")),
        RecordedFact::UndatedExcluded => number(run.metrics.get("requests_without_timestamp_excluded")),
        RecordedFact::UndatedObservations => number(run.summary.get2("requests_per_minute", "observations_without_timestamp")),
        RecordedFact::WindowSeconds => span(filter_time(run, "filter_from"), filter_time(run, "filter_to")),
        RecordedFact::WindowStartSecondOfDayUtc => match filter_time(run, "filter_from") {
            Some(t) => Some(FactValue::Whole(clock_seconds(t.seconds) as i128)),
            None => None,
        },
        RecordedFact::WindowStartWeekdayUtc => match filter_time(run, "filter_from") {
            Some(t) => Some(
                FactValue::Whole(
                    weekday_of(t.seconds) as i128,
                ),
            ),
            None => None,
        },
    }
}

/// The recorded conditions of a run.
#[derive(Clone, Debug)]
pub struct RunConditions {
    /// One entry for each fact, in the order of the facts.
    pub facts: Vec<Option<FactValue>>,
}

impl RunConditions {
    /// Whether the entries are the facts of a run.
    pub open spec fn of(&self, run: RunModel) -> bool {
        &&& self.facts@.len() == FACTS
        &&& forall|i: int|
            0 <= i < FACTS ==> opt_fact(#[trigger] self.facts@[i]) == recorded(all_facts()[i], run)
    }

    pub fn get(&self, fact: RecordedFact) -> (r: &Option<FactValue>)
        requires
            self.facts@.len() == FACTS,
        ensures
            *r == self.facts@[fact.place()],
    {
        &self.facts[fact.rank()]
    }
}

/// Reads the conditions of a run from its manifest and its sanitized report; a missing one is
/// null. `total_above_zero` says whether the numbers of `status_numbers` add up to more than
/// zero.
pub fn read_conditions(manifest: &Json, sanitized: &Json, total_above_zero: bool) -> (r:
    RunConditions)
    ensures
        r.of(run_of(manifest@, sanitized@, total_above_zero)),
{
    let null = Json::Null;
    let metrics = match sanitized.get("metrics") {
        Some(value) => value,
        None => sanitized,
    };
    let summary = match metrics.get("request_concentration") {
        Some(value) => value,
        None => &null,
    };
    let run = Run { manifest, sanitized, metrics, summary, total_above_zero };
    let all = RecordedFact::all();
    let mut facts: Vec<Option<FactValue>> = Vec::new();
    let mut i: usize = 0;
    while i < all.len()
        invariant
            all@ == all_facts(),
            all@.len() == FACTS,
            i <= FACTS,
            facts@.len() == i,
            forall|j: int|
                0 <= j < i ==> opt_fact(#[trigger] facts@[j]) == recorded(
                    all_facts()[j],
                    run.model(),
                ),
        decreases all.len() - i,
    {
        facts.push(read_fact(all[i], &run));
        i = i + 1;
    }
    RunConditions { facts }
}

/// The document of an artifact; null where there is no artifact.
pub open spec fn artifact(text: Option<&str>) -> Option<JsonModel> {
    match text {
        Some(t) => json_from_text(t@),
        None => Some(JsonModel::Null),
    }
}

fn read_artifact(text: Option<&str>) -> (r: Option<Json>)
    ensures
        match r {
            Some(value) => artifact(text) == Some(value@),
            None => artifact(text) is None,
        },
{
    match text {
        Some(t) => Json::parse(t),
        None => Some(Json::Null),
    }
}

/// The counts of the status classes that the sanitized report of a run gives, as it writes them.
/// Whether their sum is above zero is what `read_run_conditions` asks for.
pub fn run_status_numbers(sanitized: Option<&str>) -> (r: Option<Vec<String>>)
    ensures
        ({
            let recorded = match artifact(sanitized) {
                Some(s) => status_numbers_of(run_of(JsonModel::Null, s, false).summary),
                None => None,
            };
            match r {
                Some(numbers) => recorded == Some(texts(numbers@)),
                None => recorded is None,
            }
        }),
{
    let document = match read_artifact(sanitized) {
        Some(value) => value,
        None => {
            return None;
        },
    };
    let metrics = match document.get("metrics") {
        Some(value) => value,
        None => &document,
    };
    match metrics.get("request_concentration") {
        Some(summary) => status_numbers(summary),
        None => status_numbers(&Json::Null),
    }
}

/// Reads the conditions of a run from the texts of its manifest and its sanitized report; none
/// where one of them is not a JSON document.
pub fn read_run_conditions(
    manifest: Option<&str>,
    sanitized: Option<&str>,
    total_above_zero: bool,
) -> (r: Option<RunConditions>)
    ensures
        match (artifact(manifest), artifact(sanitized)) {
            (Some(m), Some(s)) => r matches Some(conditions) && conditions.of(
                run_of(m, s, total_above_zero),
            ),
            _ => r is None,
        },
{
    let manifest = match read_artifact(manifest) {
        Some(value) => value,
        None => {
            return None;
        },
    };
    let sanitized = match read_artifact(sanitized) {
        Some(value) => value,
        None => {
            return None;
        },
    };
    Some(read_conditions(&manifest, &sanitized, total_above_zero))
}

#[derive(Debug)]
pub struct ConditionsComparison {
    pub note: String,
    pub baseline: RunConditions,
    pub current: RunConditions,
    pub changed_recorded_facts: Vec<String>,
    pub unavailable_facts: Vec<String>,
}

/// How a fact stands in two runs.
#[derive(Clone, Copy, Debug, PartialEq, Eq, Structural)]
pub enum FactChange {
    Same,
    Changed,
    Unavailable,
}

/// The largest number up to which every whole number has a floating-point value of its own.
pub const EXACT_NUMBERS: u64 = 9_007_199_254_740_992;

/// Whether each text of a list is a whole number.
pub open spec fn all_counts(numbers: Seq<Seq<char>>) -> bool {
    forall|i: int|
        0 <= i < numbers.len() ==> unsigned_value(#[trigger] numbers[i], u64::MAX as nat) is Some
}

/// How two recorded numbers stand: equal texts are the same number, and whole numbers are
/// compared as such. What is left is compared as the caller found.
pub open spec fn number_change(x: Seq<char>, y: Seq<char>, numbers_differ: bool) -> FactChange {
    let (m, n) = (
        unsigned_value(x, EXACT_NUMBERS as nat),
        unsigned_value(y, EXACT_NUMBERS as nat),
    );
    if x == y || (m is Some && n is Some && m == n) {
        FactChange::Same
    } else if (m is Some && n is Some) || numbers_differ {
        FactChange::Changed
    } else {
        FactChange::Same
    }
}

/// How a fact stands in two runs. Digests are compared as texts and numbers as numbers; equal
/// lists of counts give equal shares. `numbers_differ` decides only on numbers that are not whole
/// or too large, and on the shares of different lists.
pub open spec fn fact_change(
    b: Option<FactValue>,
    c: Option<FactValue>,
    numbers_differ: bool,
) -> FactChange {
    match (b, c) {
        (Some(FactValue::Signature(x)), Some(FactValue::Signature(y))) => if x@ == y@ {
            FactChange::Same
        } else {
            FactChange::Changed
        },
        (Some(FactValue::Whole(x)), Some(FactValue::Whole(y))) => if x == y {
            FactChange::Same
        } else {
            FactChange::Changed
        },
        (Some(FactValue::Written(x)), Some(FactValue::Written(y))) => number_change(
            x@,
            y@,
            numbers_differ,
        ),
        (Some(FactValue::Share(x)), Some(FactValue::Share(y))) => if (texts(x@) == texts(y@)
            && all_counts(texts(x@))) || !numbers_differ {
            FactChange::Same
        } else {
            FactChange::Changed
        },
        (Some(_), Some(_)) => if numbers_differ {
            FactChange::Changed
        } else {
            FactChange::Same
        },
        _ => FactChange::Unavailable,
    }
}

fn change_of_number(x: &str, y: &str, numbers_differ: bool) -> (r: FactChange)
    ensures
        r == number_change(x@, y@, numbers_differ),
{
    if same_text(x, y) {
        return FactChange::Same;
    }
    match (parse_unsigned(x, EXACT_NUMBERS), parse_unsigned(y, EXACT_NUMBERS)) {
        (Some(m), Some(n)) => if m == n {
            FactChange::Same
        } else {
            FactChange::Changed
        },
        _ => if numbers_differ {
            FactChange::Changed
        } else {
            FactChange::Same
        },
    }
}

fn same_counts(x: &Vec<String>, y: &Vec<String>) -> (r: bool)
    ensures
        r == (texts(x@) == texts(y@) && all_counts(texts(x@))),
{
    assert(texts(x@).len() == x@.len() && texts(y@).len() == y@.len());
    if x.len() != y.len() {
        return false;
    }
    let mut i: usize = 0;
    while i < x.len()
        invariant
            i <= x@.len(),
            x@.len() == y@.len(),
            texts(x@).len() == x@.len(),
            texts(y@).len() == y@.len(),
            forall|j: int| 0 <= j < i ==> texts(x@)[j] == texts(y@)[j],
            forall|j: int|
                0 <= j < i ==> unsigned_value(#[trigger] texts(x@)[j], u64::MAX as nat) is Some,
        decreases x.len() - i,
    {
        assert(texts(x@)[i as int] == x@[i as int]@);
        assert(texts(y@)[i as int] == y@[i as int]@);
        if !same_text(x[i].as_str(), y[i].as_str()) || parse_unsigned(
            x[i].as_str(),
            u64::MAX,
        ).is_none() {
            return false;
        }
        i = i + 1;
    }
    assert(texts(x@) =~= texts(y@));
    true
}

fn change_of(b: &Option<FactValue>, c: &Option<FactValue>, numbers_differ: bool) -> (r: FactChange)
    ensures
        r == fact_change(*b, *c, numbers_differ),
{
    match (b, c) {
        (Some(FactValue::Signature(x)), Some(FactValue::Signature(y))) => if same_text(
            x.as_str(),
            y.as_str(),
        ) {
            FactChange::Same
        } else {
            FactChange::Changed
        },
        (Some(FactValue::Whole(x)), Some(FactValue::Whole(y))) => if *x == *y {
            FactChange::Same
        } else {
            FactChange::Changed
        },
        (Some(FactValue::Written(x)), Some(FactValue::Written(y))) => change_of_number(
            x.as_str(),
            y.as_str(),
            numbers_differ,
        ),
        (Some(FactValue::Share(x)), Some(FactValue::Share(y))) => if same_counts(x, y)
            || !numbers_differ {
            FactChange::Same
        } else {
            FactChange::Changed
        },
        (Some(_), Some(_)) => if numbers_differ {
            FactChange::Changed
        } else {
            FactChange::Same
        },
        _ => FactChange::Unavailable,
    }
}

/// The names of the first `n` facts that stand in a given way.
pub open spec fn names_with(
    b: Seq<Option<FactValue>>,
    c: Seq<Option<FactValue>>,
    differ: Seq<bool>,
    change: FactChange,
    n: nat,
) -> Seq<Seq<char>>
    decreases n,
{
    if n == 0 {
        seq![]
    } else {
        let before = names_with(b, c, differ, change, (n - 1) as nat);
        if fact_change(b[n - 1], c[n - 1], differ[n - 1]) == change {
            before.push(all_facts()[n - 1].name())
        } else {
            before
        }
    }
}

/// Compares the conditions of two runs. `differ` says, in the order of the facts, whether two
/// recorded numbers differ; it is asked only where they are not whole numbers of ordinary size.
pub fn compare_conditions(
    baseline: RunConditions,
    current: RunConditions,
    differ: &Vec<bool>,
) -> (r: ConditionsComparison)
    requires
        baseline.facts@.len() == FACTS,
        current.facts@.len() == FACTS,
        differ@.len() == FACTS,
    ensures
        r.note@ == NOTE@,
        r.baseline == baseline,
        r.current == current,
        texts(r.changed_recorded_facts@) == names_with(
            baseline.facts@,
            current.facts@,
            differ@,
            FactChange::Changed,
            FACTS as nat,
        ),
        texts(r.unavailable_facts@) == names_with(
            baseline.facts@,
            current.facts@,
            differ@,
            FactChange::Unavailable,
            FACTS as nat,
        ),
{
    let all = RecordedFact::all();
    let mut changed: Vec<String> = Vec::new();
    let mut unavailable: Vec<String> = Vec::new();
    assert(texts(changed@) =~= Seq::<Seq<char>>::empty());
    assert(texts(unavailable@) =~= Seq::<Seq<char>>::empty());
    let mut i: usize = 0;
    while i < all.len()
        invariant
            all@ == all_facts(),
            all@.len() == FACTS,
            i <= FACTS,
            baseline.facts@.len() == FACTS,
            current.facts@.len() == FACTS,
            differ@.len() == FACTS,
            texts(changed@) == names_with(
                baseline.facts@,
                current.facts@,
                differ@,
                FactChange::Changed,
                i as nat,
            ),
            texts(unavailable@) == names_with(
                baseline.facts@,
                current.facts@,
                differ@,
                FactChange::Unavailable,
                i as nat,
            ),
        decreases all.len() - i,
    {
        let ghost was_changed = changed@;
        let ghost was_unavailable = unavailable@;
        let name = all[i].label().to_owned();
        let ghost label = name@;
        match change_of(&baseline.facts[i], &current.facts[i], differ[i]) {
            FactChange::Changed => {
                changed.push(name);
                assert(texts(changed@) =~= texts(was_changed).push(label));
            },
            FactChange::Unavailable => {
                unavailable.push(name);
                assert(texts(unavailable@) =~= texts(was_unavailable).push(label));
            },
            FactChange::Same => {},
        }
        i = i + 1;
    }
    ConditionsComparison {
        note: NOTE.to_owned(),
        baseline,
        current,
        changed_recorded_facts: changed,
        unavailable_facts: unavailable,
    }
}

/// Conditions set against themselves show no change, whatever was found of their numbers: only
/// of a share of counts that are not whole numbers is that asked.
pub proof fn equal_conditions_show_no_change(
    facts: Seq<Option<FactValue>>,
    differ: Seq<bool>,
    n: nat,
)
    requires
        n <= facts.len(),
        n <= differ.len(),
        forall|i: int|
            0 <= i < n ==> ((#[trigger] facts[i]) matches Some(FactValue::Share(numbers))
                && !all_counts(texts(numbers@)) ==> !differ[i]),
    ensures
        names_with(facts, facts, differ, FactChange::Changed, n).len() == 0,
    decreases n,
{
    if n > 0 {
        equal_conditions_show_no_change(facts, differ, (n - 1) as nat);
        assert(facts[n - 1] matches Some(FactValue::Share(numbers)) && !all_counts(
            texts(numbers@),
        ) ==> !differ[n - 1]);
    }
}

/// Of a setting only a digest is kept, never its value.
pub proof fn settings_are_kept_as_digests(fact: RecordedFact, run: RunModel)
    ensures
        fact.digested() ==> (recorded(fact, run) matches Some(value) ==> value is Signature),
        !fact.digested() ==> (recorded(fact, run) matches Some(value) ==> !(value is Signature)),
{
}

} // verus!
