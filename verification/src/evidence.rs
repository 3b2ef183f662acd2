//! The evidence file beside an exported rule. It recommends counting, never blocking.

use crate::candidate::{CandidateEvidence, DefensiveCandidate};
use crate::condition::{Backend, CompatibilityReport, CompatibilityStatus};
use crate::cti_export::{text_list, texts_json};
use crate::event::{TelemetryProfile, Timestamp};
use crate::export::{aws_rule_model, empty_object, is_plan, may_export, ExportPlan, Rendered};
use crate::json::{add_field, field_of, first_field, no_fields, single, Json, JsonModel};
use crate::text::{decimal, texts};
use crate::timeline::representable;
use vstd::prelude::*;
use vstd::string::*;

verus! {

broadcast use vstd::string::group_string_axioms;

/// Whether `chrono::DateTime` can hold a point in time. Nanoseconds beyond the second stand for a
/// leap second, which only the last second of a minute can have.
pub open spec fn holdable(t: Timestamp) -> bool {
    &&& representable(t.seconds as int)
    &&& t.nanos < 1_000_000_000 || (t.nanos < 2_000_000_000 && t.seconds as int % 60 == 59)
}

/// A point in time, by its seconds and nanoseconds, as RFC 3339 writes it in UTC.
pub uninterp spec fn rfc3339_text(seconds: i64, nanos: u32) -> Seq<char>;

/// Writes a time with `chrono::DateTime::from_timestamp` and `chrono::DateTime::to_rfc3339_opts`,
/// with a `Z` and as many digits after the second as the nanoseconds need. The text is a function
/// of the seconds and the nanoseconds. There is none where no `DateTime` can hold the time.
#[verifier::external_body]
fn write_rfc3339(seconds: i64, nanos: u32) -> (r: Option<String>)
    ensures
        match r {
            Some(text) => holdable(Timestamp { seconds, nanos }) && text@ == rfc3339_text(
                seconds,
                nanos,
            ),
            None => !holdable(Timestamp { seconds, nanos }),
        },
{
    let time = chrono::DateTime::from_timestamp(seconds, nanos)?;
    Some(time.to_rfc3339_opts(chrono::SecondsFormat::AutoSi, true))
}

/// A time as a document holds it.
pub open spec fn time_model(t: Option<Timestamp>) -> JsonModel {
    match t {
        Some(t) => JsonModel::Text(rfc3339_text(t.seconds, t.nanos)),
        None => JsonModel::Null,
    }
}

fn time_json(t: Option<Timestamp>) -> (r: Option<Json>)
    ensures
        match r {
            Some(j) => j@ == time_model(t) && (t matches Some(t) ==> holdable(t)),
            None => t matches Some(t) && !holdable(t),
        },
{
    match t {
        Some(t) => match write_rfc3339(t.seconds, t.nanos) {
            Some(text) => Some(Json::Text(text)),
            None => None,
        },
        None => Some(Json::Null),
    }
}

pub open spec fn profile_label(profile: TelemetryProfile) -> Seq<char> {
    match profile {
        TelemetryProfile::AwsWaf => "aws-waf"@,
        TelemetryProfile::NginxCombined => "nginx-combined"@,
        TelemetryProfile::ApacheCombined => "apache-combined"@,
        TelemetryProfile::ApacheVhostCombined => "apache-vhost-combined"@,
        TelemetryProfile::NginxCombinedHost => "nginx-combined-host"@,
        TelemetryProfile::NginxSecurity => "nginx-security"@,
    }
}

fn profile_name(profile: TelemetryProfile) -> (r: &'static str)
    ensures
        r@ == profile_label(profile),
{
    match profile {
        TelemetryProfile::AwsWaf => "aws-waf",
        TelemetryProfile::NginxCombined => "nginx-combined",
        TelemetryProfile::ApacheCombined => "apache-combined",
        TelemetryProfile::ApacheVhostCombined => "apache-vhost-combined",
        TelemetryProfile::NginxCombinedHost => "nginx-combined-host",
        TelemetryProfile::NginxSecurity => "nginx-security",
    }
}

pub open spec fn status_label(status: CompatibilityStatus) -> Seq<char> {
    match status {
        CompatibilityStatus::FullySupported => "FULLY_SUPPORTED"@,
        CompatibilityStatus::PartiallySupported => "PARTIALLY_SUPPORTED"@,
        CompatibilityStatus::Unsupported => "UNSUPPORTED"@,
    }
}

fn status_name(status: CompatibilityStatus) -> (r: &'static str)
    ensures
        r@ == status_label(status),
{
    match status {
        CompatibilityStatus::FullySupported => "FULLY_SUPPORTED",
        CompatibilityStatus::PartiallySupported => "PARTIALLY_SUPPORTED",
        CompatibilityStatus::Unsupported => "UNSUPPORTED",
    }
}

/// A compatibility report as a document.
pub open spec fn report_model(report: CompatibilityReport) -> JsonModel {
    JsonModel::Object(
        seq![
            ("backend"@, JsonModel::Text(report.backend@)),
            ("telemetry_profile"@, JsonModel::Text(profile_label(report.telemetry_profile))),
            ("status"@, JsonModel::Text(status_label(report.status))),
            ("reasons"@, text_list(texts(report.reasons@))),
        ],
    )
}

fn report_json(report: &CompatibilityReport) -> (r: Json)
    ensures
        r@ == report_model(*report),
{
    let mut fields = no_fields();
    add_field(&mut fields, "backend", Json::text(report.backend.as_str()));
    add_field(
        &mut fields,
        "telemetry_profile",
        Json::text(profile_name(report.telemetry_profile)),
    );
    add_field(&mut fields, "status", Json::text(status_name(report.status)));
    add_field(&mut fields, "reasons", texts_json(&report.reasons));
    assert(crate::json::field_models(fields@) =~= report_model(*report)->Object_0);
    Json::object(fields)
}

pub open spec fn count_model(n: u64) -> JsonModel {
    JsonModel::Number(decimal(n as nat))
}

/// The evidence of a candidate as a document. `coverage` is how its threat coverage is written.
pub open spec fn candidate_evidence_model(e: CandidateEvidence, coverage: Seq<char>) -> JsonModel {
    JsonModel::Object(
        seq![
            ("historical_requests_evaluated"@, count_model(e.historical_requests_evaluated)),
            ("known_threat_findings"@, count_model(e.known_threat_findings)),
            ("known_threat_findings_matched"@, count_model(e.known_threat_findings_matched)),
            ("known_threat_findings_missed"@, count_model(e.known_threat_findings_missed)),
            ("other_historical_matches"@, count_model(e.other_historical_matches)),
            (
                "threat_coverage"@,
                if e.threat_coverage is Some {
                    JsonModel::Number(coverage)
                } else {
                    JsonModel::Null
                },
            ),
            ("first_seen"@, time_model(e.first_seen)),
            ("last_seen"@, time_model(e.last_seen)),
            ("replay_completed"@, JsonModel::Bool(e.replay_completed)),
        ],
    )
}

/// Whether a `chrono::DateTime` can hold the times of a candidate's evidence.
pub open spec fn times_holdable(e: CandidateEvidence) -> bool {
    &&& e.first_seen matches Some(t) ==> holdable(t)
    &&& e.last_seen matches Some(t) ==> holdable(t)
}

fn candidate_evidence_json(e: &CandidateEvidence, coverage: &str) -> (r: Option<Json>)
    ensures
        match r {
            Some(j) => times_holdable(*e) && j@ == candidate_evidence_model(*e, coverage@),
            None => !times_holdable(*e),
        },
{
    let first = match time_json(e.first_seen) {
        Some(j) => j,
        None => {
            return None;
        },
    };
    let last = match time_json(e.last_seen) {
        Some(j) => j,
        None => {
            return None;
        },
    };
    let share = match e.threat_coverage {
        Some(_) => Json::Number(coverage.to_owned()),
        None => Json::Null,
    };
    let mut fields = no_fields();
    add_field(
        &mut fields,
        "historical_requests_evaluated",
        Json::number(e.historical_requests_evaluated),
    );
    add_field(&mut fields, "known_threat_findings", Json::number(e.known_threat_findings));
    add_field(
        &mut fields,
        "known_threat_findings_matched",
        Json::number(e.known_threat_findings_matched),
    );
    add_field(
        &mut fields,
        "known_threat_findings_missed",
        Json::number(e.known_threat_findings_missed),
    );
    add_field(&mut fields, "other_historical_matches", Json::number(e.other_historical_matches));
    add_field(&mut fields, "threat_coverage", share);
    add_field(&mut fields, "first_seen", first);
    add_field(&mut fields, "last_seen", last);
    add_field(&mut fields, "replay_completed", Json::Bool(e.replay_completed));
    assert(crate::json::field_models(fields@) =~= candidate_evidence_model(
        *e,
        coverage@,
    )->Object_0);
    Some(Json::object(fields))
}

/// What the evidence file of an export holds. `coverage` is how the threat coverage is written as
/// a number of the document.
pub open spec fn evidence_model(
    c: DefensiveCandidate,
    report: CompatibilityReport,
    coverage: Seq<char>,
) -> JsonModel {
    JsonModel::Object(
        seq![
            ("candidate_id"@, JsonModel::Text(c.id@)),
            ("cves"@, text_list(texts(c.cves@))),
            ("kev"@, JsonModel::Bool(c.kev)),
            ("evidence"@, candidate_evidence_model(c.evidence, coverage)),
            ("recommended_initial_action"@, JsonModel::Text("COUNT"@)),
            ("backend_compatibility"@, report_model(report)),
            (
                "safety_note"@,
                JsonModel::Text(
                    "Candidate artifact only. Human review is required; no deployment was performed."@,
                ),
            ),
        ],
    )
}

/// The evidence file of an export; none where a time of the evidence is one that no
/// `chrono::DateTime` can hold.
pub fn evidence_document(
    candidate: &DefensiveCandidate,
    report: &CompatibilityReport,
    coverage: &str,
) -> (r: Option<Json>)
    ensures
        match r {
            Some(j) => times_holdable(candidate.evidence) && j@ == evidence_model(
                *candidate,
                *report,
                coverage@,
            ),
            None => !times_holdable(candidate.evidence),
        },
{
    let evidence = match candidate_evidence_json(&candidate.evidence, coverage) {
        Some(j) => j,
        None => {
            return None;
        },
    };
    let mut fields = no_fields();
    add_field(&mut fields, "candidate_id", Json::text(candidate.id.as_str()));
    add_field(&mut fields, "cves", texts_json(&candidate.cves));
    add_field(&mut fields, "kev", Json::Bool(candidate.kev));
    add_field(&mut fields, "evidence", evidence);
    add_field(&mut fields, "recommended_initial_action", Json::text("COUNT"));
    add_field(&mut fields, "backend_compatibility", report_json(report));
    add_field(
        &mut fields,
        "safety_note",
        Json::text(
            "Candidate artifact only. Human review is required; no deployment was performed.",
        ),
    );
    assert(crate::json::field_models(fields@) =~= evidence_model(
        *candidate,
        *report,
        coverage@,
    )->Object_0);
    Some(Json::object(fields))
}

/// The name of the evidence file beside an output, by the stem of the output's name where it has
/// one.
pub open spec fn evidence_name_of(stem: Option<Seq<char>>) -> Seq<char> {
    match stem {
        Some(stem) => stem + ".evidence.json"@,
        None => "candidate"@ + ".evidence.json"@,
    }
}

pub fn evidence_name(stem: Option<&str>) -> (r: String)
    ensures
        r@ == evidence_name_of(crate::event::opt_str(stem)),
{
    let mut r = match stem {
        Some(stem) => stem.to_owned(),
        None => "candidate".to_owned(),
    };
    r.append(".evidence.json");
    r
}

/// An export that is written is fully supported, without a reason against it. An AWS rule has the
/// given priority, and counts: it never blocks. The evidence file recommends counting.
pub proof fn exports_only_count(
    plan: ExportPlan,
    c: DefensiveCandidate,
    backend: Backend,
    telemetry: TelemetryProfile,
    priority: Option<u32>,
    ossec_rule_id: u32,
    coverage: Seq<char>,
    coverage_number: Seq<char>,
)
    requires
        may_export(c, backend, telemetry, priority),
        is_plan(plan, c, backend, telemetry, priority, ossec_rule_id, coverage),
    ensures
        plan.report.status == CompatibilityStatus::FullySupported,
        plan.report.reasons@.len() == 0,
        backend is AwsWafJson ==> {
            &&& plan.rendered matches Rendered::Json(rule)
            &&& field_of(rule@, "Action"@) == Some(single("Count"@, empty_object()))
            &&& priority matches Some(level)
            &&& field_of(rule@, "Priority"@) == Some(JsonModel::Number(decimal(level as nat)))
        },
        field_of(
            evidence_model(c, plan.report, coverage_number),
            "recommended_initial_action"@,
        ) == Some(JsonModel::Text("COUNT"@)),
{
    assert(texts(plan.report.reasons@).len() == plan.report.reasons@.len());
    if backend is AwsWafJson {
        reveal_strlit("Name");
        reveal_strlit("Priority");
        reveal_strlit("Action");
        let fields = aws_rule_model(c, priority.unwrap())->Object_0;
        assert("Name"@.len() != "Action"@.len());
        assert("Name"@.len() != "Priority"@.len());
        assert("Priority"@.len() != "Action"@.len());
        assert(fields.skip(1)[0] == fields[1]);
        assert(fields.skip(1).skip(1)[0] == fields[2]);
        reveal_with_fuel(first_field, 4);
    }
    let fields = evidence_model(c, plan.report, coverage_number)->Object_0;
    reveal_strlit("candidate_id");
    reveal_strlit("cves");
    reveal_strlit("kev");
    reveal_strlit("evidence");
    reveal_strlit("recommended_initial_action");
    assert("candidate_id"@.len() != "recommended_initial_action"@.len());
    assert("cves"@.len() != "recommended_initial_action"@.len());
    assert("kev"@.len() != "recommended_initial_action"@.len());
    assert("evidence"@.len() != "recommended_initial_action"@.len());
    assert(fields.skip(1)[0] == fields[1]);
    assert(fields.skip(1).skip(1)[0] == fields[2]);
    assert(fields.skip(1).skip(1).skip(1)[0] == fields[3]);
    assert(fields.skip(1).skip(1).skip(1).skip(1)[0] == fields[4]);
    reveal_with_fuel(first_field, 6);
}

} // verus!
