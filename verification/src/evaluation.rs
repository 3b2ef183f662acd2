//! Read-only evaluation of a candidate on explicitly selected local corpora.

use crate::candidate::{compatibility, DefensiveCandidate};
use crate::concentration::{observation, ConcentrationModel, RequestConcentration};
use crate::condition::{
    absent, absent_condition_field, holds, is_compatibility, Backend, CompatibilityReport,
    DefensiveCondition,
};
use crate::digest::{digest, digest_text};
use crate::event::{TelemetryProfile, WebEvent};
use crate::network::{parsed_address, Address};
use crate::numbers::Ratio;
use crate::text::{compare_text, opt_text, same_text, text_before, TextOrder};
use crate::volume_report::{
    is_private_report, is_summary, paths_reported, sources_reported, PrivatePathConcentration,
    PrivateRequestConcentrationReport, PrivateSourceConcentration, RequestConcentrationSummary,
};
use vstd::prelude::*;
use vstd::string::*;

verus! {

broadcast use vstd::string::group_string_axioms;

pub const NOTE: &'static str =
    "PRIVATE independent-corpus COUNT evaluation. Cohort roles and labels are analyst declarations, not verified ground truth. Matches are not attacks and unmatched records are not established benign traffic. This report does not set replay_completed, authorize export, measure false-positive rate, or deploy a control. Review matched paths/statuses and coverage on representative separate corpora. Do not share raw peer/path detail.";

#[derive(Clone, Copy, Debug, PartialEq, Eq, Structural)]
pub enum CohortRole {
    Development,
    Reference,
    Holdout,
}

/// What is known of an input file.
#[derive(Clone, Debug)]
pub struct PathProvenance {
    pub path: String,
    pub byte_length: Option<u64>,
    pub sha256: Option<String>,
}

pub struct ProvenanceModel {
    pub path: Seq<char>,
    pub byte_length: Option<u64>,
    pub sha256: Option<Seq<char>>,
}

impl View for PathProvenance {
    type V = ProvenanceModel;

    open spec fn view(&self) -> ProvenanceModel {
        ProvenanceModel {
            path: self.path@,
            byte_length: self.byte_length,
            sha256: opt_text(self.sha256),
        }
    }
}

pub open spec fn provenance(files: Seq<PathProvenance>) -> Seq<ProvenanceModel> {
    files.map_values(|f: PathProvenance| f@)
}

#[derive(Clone, Debug)]
pub struct EvaluationCorpus {
    pub input: String,
    pub telemetry_profile: TelemetryProfile,
    pub role: CohortRole,
    pub label: Option<String>,
    /// Frozen provenance of whole files. A difference ends the evaluation.
    pub expected_corpus: Option<Vec<PathProvenance>>,
}

#[derive(Clone, Debug)]
pub struct EvaluationPlan {
    pub corpora: Vec<EvaluationCorpus>,
}

#[derive(Debug)]
pub struct CorpusEvaluation {
    pub role: CohortRole,
    pub label: Option<String>,
    pub telemetry_profile: TelemetryProfile,
    pub corpus: Vec<PathProvenance>,
    pub parseable_records: u64,
    pub parse_errors: u64,
    pub source_address_unavailable: u64,
    pub source_address_invalid: u64,
    /// Records that lack a value which the candidate refers to.
    pub records_with_absent_condition_fields: u64,
    pub matching_records: u64,
    pub match_share: Option<Ratio>,
    pub matches: RequestConcentrationSummary,
    pub top_paths: Vec<PrivatePathConcentration>,
    pub top_peers: Vec<PrivateSourceConcentration>,
    pub retained_paths_omitted_from_display: usize,
    pub retained_peers_omitted_from_display: usize,
    pub files_with_identical_bytes_in_another_cohort: usize,
    pub aws_compatibility: CompatibilityReport,
}

#[derive(Debug)]
pub struct EvaluationReport {
    pub report_kind: String,
    pub safety_note: String,
    pub candidate_sha256: String,
    pub plan_sha256: String,
    pub maximum_displayed_paths_and_peers: usize,
    pub corpora: Vec<CorpusEvaluation>,
}

/// Why an evaluation was not accepted.
#[derive(Clone, Copy, Debug, PartialEq, Eq, Structural)]
pub enum EvaluationError {
    NoDetailLimit,
    TooFewCorpora,
    CorpusDiffers,
    NoFingerprint,
}

impl EvaluationError {
    pub fn message(&self) -> (r: &'static str)
        ensures
            r@ == match self {
                EvaluationError::NoDetailLimit =>
                    "candidate evaluation requires a positive finite detail limit"@,
                EvaluationError::TooFewCorpora =>
                    "evaluation requires at least two explicitly selected corpora"@,
                EvaluationError::CorpusDiffers =>
                    "evaluation corpus differs from its frozen expected provenance; results were not accepted"@,
                EvaluationError::NoFingerprint =>
                    "input fingerprint unavailable for corpus evaluation provenance"@,
            },
    {
        match self {
            EvaluationError::NoDetailLimit =>
                "candidate evaluation requires a positive finite detail limit",
            EvaluationError::TooFewCorpora =>
                "evaluation requires at least two explicitly selected corpora",
            EvaluationError::CorpusDiffers =>
                "evaluation corpus differs from its frozen expected provenance; results were not accepted",
            EvaluationError::NoFingerprint =>
                "input fingerprint unavailable for corpus evaluation provenance",
        }
    }
}

/// Whether a report is the empty one for a candidate and a plan, given as their bytes.
pub open spec fn is_new_report(
    r: EvaluationReport,
    candidate: Seq<u8>,
    plan: Seq<u8>,
    maximum_details: usize,
) -> bool {
    &&& r.report_kind@ == "PRIVATE_CANDIDATE_CORPUS_EVALUATION"@
    &&& r.safety_note@ == NOTE@
    &&& r.candidate_sha256@ == digest_text(candidate)
    &&& r.plan_sha256@ == digest_text(plan)
    &&& r.maximum_displayed_paths_and_peers == maximum_details
    &&& r.corpora@.len() == 0
}

/// Starts an evaluation: refused without a positive limit on details, or with fewer than two
/// corpora.
pub fn start_evaluation(
    candidate_bytes: &[u8],
    plan_bytes: &[u8],
    corpora: usize,
    maximum_details: usize,
) -> (r: Result<EvaluationReport, EvaluationError>)
    ensures
        match r {
            Ok(report) => maximum_details > 0 && corpora >= 2 && is_new_report(
                report,
                candidate_bytes@,
                plan_bytes@,
                maximum_details,
            ),
            Err(e) => e == (if maximum_details == 0 {
                EvaluationError::NoDetailLimit
            } else {
                EvaluationError::TooFewCorpora
            }) && (maximum_details == 0 || corpora < 2),
        },
{
    if maximum_details == 0 {
        return Err(EvaluationError::NoDetailLimit);
    }
    if corpora < 2 {
        return Err(EvaluationError::TooFewCorpora);
    }
    Ok(
        EvaluationReport {
            report_kind: "PRIVATE_CANDIDATE_CORPUS_EVALUATION".to_owned(),
            safety_note: NOTE.to_owned(),
            candidate_sha256: digest(candidate_bytes),
            plan_sha256: digest(plan_bytes),
            maximum_displayed_paths_and_peers: maximum_details,
            corpora: Vec::new(),
        },
    )
}

/// Whether the source address of an event can be read.
pub open spec fn has_readable_address(e: WebEvent) -> bool {
    e.source_ip is Some && parsed_address(e.source_ip.unwrap()@) is Some
}

/// What an evaluation has counted in a corpus.
pub struct ProgressModel {
    pub parseable: nat,
    pub parse_errors: nat,
    pub unavailable: nat,
    pub invalid: nat,
    pub absent: nat,
    pub matching: nat,
    pub matched: ConcentrationModel,
}

impl ProgressModel {
    /// Whether an event is left out because its source address cannot be compared.
    pub open spec fn skipped(e: WebEvent, uses_addresses: bool, readable: bool) -> bool {
        uses_addresses && (e.source_ip is None || !readable)
    }

    pub open spec fn observed(
        self,
        c: DefensiveCondition,
        e: WebEvent,
        uses_addresses: bool,
        readable: bool,
    ) -> ProgressModel {
        let skipped = Self::skipped(e, uses_addresses, readable);
        let matches = !skipped && holds(c, e);
        ProgressModel {
            parseable: self.parseable + 1,
            parse_errors: self.parse_errors,
            unavailable: self.unavailable + if uses_addresses && e.source_ip is None {
                1nat
            } else {
                0nat
            },
            invalid: self.invalid + if skipped && e.source_ip is Some {
                1nat
            } else {
                0nat
            },
            absent: self.absent + if absent(c, e) {
                1nat
            } else {
                0nat
            },
            matching: self.matching + if matches {
                1nat
            } else {
                0nat
            },
            matched: if matches {
                self.matched.observed(observation(e))
            } else {
                self.matched
            },
        }
    }

    pub open spec fn room(self, e: WebEvent) -> bool {
        self.parseable < u64::MAX && self.matched.room(observation(e))
    }
}

/// The evaluation of one corpus, one record at a time.
#[derive(Clone, Debug)]
pub struct CorpusProgress {
    parseable: u64,
    parse_errors: u64,
    unavailable: u64,
    invalid: u64,
    absent: u64,
    matching: u64,
    matched: RequestConcentration,
}

impl View for CorpusProgress {
    type V = ProgressModel;

    closed spec fn view(&self) -> ProgressModel {
        ProgressModel {
            parseable: self.parseable as nat,
            parse_errors: self.parse_errors as nat,
            unavailable: self.unavailable as nat,
            invalid: self.invalid as nat,
            absent: self.absent as nat,
            matching: self.matching as nat,
            matched: self.matched@,
        }
    }
}

impl CorpusProgress {
    pub closed spec fn wf(&self) -> bool {
        &&& self.matched.wf()
        &&& self.unavailable <= self.parseable
        &&& self.invalid <= self.parseable
        &&& self.absent <= self.parseable
        &&& self.matching <= self.parseable
    }

    pub fn new(telemetry: TelemetryProfile) -> (r: Self)
        ensures
            r.wf(),
            r@.parseable == 0,
            r@.parse_errors == 0,
            r@.unavailable == 0,
            r@.invalid == 0,
            r@.absent == 0,
            r@.matching == 0,
            r@.matched == ConcentrationModel::none(
                telemetry.records().response_bytes,
                telemetry.records().status,
                crate::tracking::ConcentrationLimits::standard(),
                crate::concentration::DEFAULT_RATE_WINDOW_SECONDS@,
            ),
    {
        let caps = telemetry.capabilities();
        CorpusProgress {
            parseable: 0,
            parse_errors: 0,
            unavailable: 0,
            invalid: 0,
            absent: 0,
            matching: 0,
            matched: RequestConcentration::with_capabilities(caps.response_bytes, caps.status),
        }
    }

    /// Counts a record that could not be parsed.
    pub fn parse_error(&mut self)
        requires
            old(self).wf(),
            old(self)@.parse_errors < u64::MAX,
        ensures
            final(self).wf(),
            final(self)@ == (ProgressModel {
                parse_errors: old(self)@.parse_errors + 1,
                ..old(self)@
            }),
    {
        self.parse_errors = self.parse_errors + 1;
    }

    /// How many records could not be parsed.
    pub fn parse_errors(&self) -> (r: u64)
        ensures
            r == self@.parse_errors,
    {
        self.parse_errors
    }

    /// Whether one more event can be counted.
    pub fn can_observe(&self, event: &WebEvent) -> (r: bool)
        requires
            self.wf(),
        ensures
            r == self@.room(*event),
    {
        self.parseable < u64::MAX && self.matched.can_observe(event)
    }

    pub fn observe(
        &mut self,
        candidate: &DefensiveCandidate,
        event: &WebEvent,
        uses_addresses: bool,
    )
        requires
            old(self).wf(),
            old(self)@.room(*event),
        ensures
            final(self).wf(),
            final(self)@ == old(self)@.observed(
                candidate.conditions,
                *event,
                uses_addresses,
                has_readable_address(*event),
            ),
    {
        let address = match &event.source_ip {
            Some(text) => Address::parse(text.as_str()),
            None => None,
        };
        self.count(candidate, event, uses_addresses, address.is_some());
    }

    /// The same, with the answer whether the source address of the event could be read.
    pub fn count(
        &mut self,
        candidate: &DefensiveCandidate,
        event: &WebEvent,
        uses_addresses: bool,
        address_is_readable: bool,
    )
        requires
            old(self).wf(),
            old(self)@.room(*event),
        ensures
            final(self).wf(),
            final(self)@ == old(self)@.observed(
                candidate.conditions,
                *event,
                uses_addresses,
                address_is_readable,
            ),
    {
        self.parseable = self.parseable + 1;
        if absent_condition_field(&candidate.conditions, event) {
            self.absent = self.absent + 1;
        }
        if uses_addresses {
            if event.source_ip.is_none() {
                self.unavailable = self.unavailable + 1;
                return ;
            }
            if !address_is_readable {
                self.invalid = self.invalid + 1;
                return ;
            }
        }
        if candidate.conditions.matches(event) {
            self.matching = self.matching + 1;
            self.matched.observe(event);
        }
    }

    /// The report of the matching records.
    pub fn private_report(&self) -> (r: PrivateRequestConcentrationReport)
        requires
            self.wf(),
        ensures
            is_private_report(r, self@.matched, false),
    {
        self.matched.private_report()
    }

    /// The result for the corpus; refused where its files differ from the frozen ones.
    pub fn finish(
        &self,
        candidate: &DefensiveCandidate,
        plan: &EvaluationCorpus,
        files: Vec<PathProvenance>,
        maximum_details: usize,
    ) -> (r: Result<CorpusEvaluation, EvaluationError>)
        requires
            self.wf(),
        ensures
            match r {
                Ok(row) => {
                    &&& accepted(plan.expected_corpus, provenance(files@))
                    &&& is_row(row, self@, *candidate, *plan, provenance(files@), maximum_details)
                },
                Err(e) => e is CorpusDiffers && !accepted(
                    plan.expected_corpus,
                    provenance(files@),
                ),
            },
    {
        if let Some(expected) = &plan.expected_corpus {
            let sorted = sorted_by_path(expected);
            if !same_provenance(&sorted, &files) {
                return Err(EvaluationError::CorpusDiffers);
            }
        }
        let report = self.private_report();
        let mut top_paths = report.paths;
        let mut top_peers = report.source_ips;
        let ghost all_paths = top_paths@;
        let ghost all_peers = top_peers@;
        let paths_omitted: usize = if top_paths.len() > maximum_details {
            top_paths.len() - maximum_details
        } else {
            0
        };
        let peers_omitted: usize = if top_peers.len() > maximum_details {
            top_peers.len() - maximum_details
        } else {
            0
        };
        if top_paths.len() > maximum_details {
            top_paths.truncate(maximum_details);
        }
        if top_peers.len() > maximum_details {
            top_peers.truncate(maximum_details);
        }
        proof {
            assert(top_paths@ =~= first_of(all_paths, maximum_details as nat));
            assert(top_peers@ =~= first_of(all_peers, maximum_details as nat));
        }
        let label = match &plan.label {
            Some(label) => Some(label.clone()),
            None => None,
        };
        let row = CorpusEvaluation {
            role: plan.role,
            label,
            telemetry_profile: plan.telemetry_profile,
            corpus: files,
            parseable_records: self.parseable,
            parse_errors: self.parse_errors,
            source_address_unavailable: self.unavailable,
            source_address_invalid: self.invalid,
            records_with_absent_condition_fields: self.absent,
            matching_records: self.matching,
            match_share: if self.parseable > 0 {
                Some(Ratio { numerator: self.matching, denominator: self.parseable })
            } else {
                None
            },
            matches: report.summary,
            top_paths,
            top_peers,
            retained_paths_omitted_from_display: paths_omitted,
            retained_peers_omitted_from_display: peers_omitted,
            files_with_identical_bytes_in_another_cohort: 0,
            aws_compatibility: compatibility(
                candidate,
                Backend::AwsWafJson,
                plan.telemetry_profile,
            ),
        };
        proof {
            assert(details_shown(row, self@.matched, maximum_details)) by {
                assert(paths_reported(all_paths, self@.matched, false));
                assert(sources_reported(all_peers, self@.matched));
            }
        }
        Ok(row)
    }
}

/// The first entries of a list, no more than a limit.
pub open spec fn first_of<T>(list: Seq<T>, limit: nat) -> Seq<T> {
    if list.len() > limit {
        list.take(limit as int)
    } else {
        list
    }
}

pub open spec fn beyond(length: nat, limit: nat) -> nat {
    if length > limit {
        (length - limit) as nat
    } else {
        0
    }
}

/// Whether the first paths and sources of the matching records are shown, and how many are not.
pub open spec fn details_shown(
    row: CorpusEvaluation,
    matched: ConcentrationModel,
    maximum_details: usize,
) -> bool {
    &&& exists|paths: Seq<PrivatePathConcentration>| #[trigger]
        paths_reported(paths, matched, false) && row.top_paths@ == first_of(
            paths,
            maximum_details as nat,
        ) && row.retained_paths_omitted_from_display == beyond(paths.len(), maximum_details as nat)
    &&& exists|peers: Seq<PrivateSourceConcentration>| #[trigger]
        sources_reported(peers, matched) && row.top_peers@ == first_of(
            peers,
            maximum_details as nat,
        ) && row.retained_peers_omitted_from_display == beyond(peers.len(), maximum_details as nat)
}

/// Whether a row says what was counted in a corpus.
pub open spec fn is_row(
    row: CorpusEvaluation,
    progress: ProgressModel,
    candidate: DefensiveCandidate,
    plan: EvaluationCorpus,
    files: Seq<ProvenanceModel>,
    maximum_details: usize,
) -> bool {
    &&& row.role == plan.role
    &&& opt_text(row.label) == opt_text(plan.label)
    &&& row.telemetry_profile == plan.telemetry_profile
    &&& provenance(row.corpus@) == files
    &&& row.parseable_records == progress.parseable
    &&& row.parse_errors == progress.parse_errors
    &&& row.source_address_unavailable == progress.unavailable
    &&& row.source_address_invalid == progress.invalid
    &&& row.records_with_absent_condition_fields == progress.absent
    &&& row.matching_records == progress.matching
    &&& row.match_share == (if progress.parseable > 0 {
        Some(
            Ratio { numerator: progress.matching as u64, denominator: progress.parseable as u64 },
        )
    } else {
        None
    })
    &&& is_summary(row.matches, progress.matched)
    &&& details_shown(row, progress.matched, maximum_details)
    &&& row.files_with_identical_bytes_in_another_cohort == 0
    &&& is_compatibility(
        row.aws_compatibility,
        candidate.conditions,
        Backend::AwsWafJson,
        plan.telemetry_profile,
    )
}

/// Where a file goes in a list that is sorted by path: after those that do not come later.
pub open spec fn place(list: Seq<ProvenanceModel>, file: ProvenanceModel) -> int
    decreases list.len(),
{
    if list.len() == 0 {
        0
    } else if text_before(file.path, list.last().path) {
        place(list.drop_last(), file)
    } else {
        list.len() as int
    }
}

/// Files sorted by path. Files with the same path keep their order.
pub open spec fn by_path(files: Seq<ProvenanceModel>) -> Seq<ProvenanceModel>
    decreases files.len(),
{
    if files.len() == 0 {
        seq![]
    } else {
        let sorted = by_path(files.drop_last());
        sorted.insert(place(sorted, files.last()), files.last())
    }
}

/// Whether the files of a corpus are those expected, where some are.
pub open spec fn accepted(
    expected: Option<Vec<PathProvenance>>,
    files: Seq<ProvenanceModel>,
) -> bool {
    match expected {
        Some(list) => by_path(provenance(list@)) == files,
        None => true,
    }
}

proof fn lemma_place(list: Seq<ProvenanceModel>, file: ProvenanceModel)
    ensures
        0 <= place(list, file) <= list.len(),
    decreases list.len(),
{
    if list.len() > 0 {
        lemma_place(list.drop_last(), file);
    }
}

fn copied(file: &PathProvenance) -> (r: PathProvenance)
    ensures
        r@ == file@,
{
    PathProvenance {
        path: file.path.clone(),
        byte_length: file.byte_length,
        sha256: match &file.sha256 {
            Some(text) => Some(text.clone()),
            None => None,
        },
    }
}

pub fn sorted_by_path(files: &Vec<PathProvenance>) -> (r: Vec<PathProvenance>)
    ensures
        provenance(r@) == by_path(provenance(files@)),
{
    let ghost all = provenance(files@);
    let mut r: Vec<PathProvenance> = Vec::new();
    let mut i: usize = 0;
    assert(provenance(r@) =~= by_path(all.take(0)));
    while i < files.len()
        invariant
            all == provenance(files@),
            i <= files@.len(),
            provenance(r@) == by_path(all.take(i as int)),
        decreases files.len() - i,
    {
        let ghost sorted = provenance(r@);
        let ghost file = files@[i as int]@;
        let mut p: usize = r.len();
        assert(sorted.take(p as int) =~= sorted);
        while p > 0 && is_before(&files[i].path, &r[p - 1].path)
            invariant
                i < files@.len(),
                file == files@[i as int]@,
                sorted == provenance(r@),
                p <= r@.len(),
                place(sorted.take(p as int), file) == place(sorted, file),
            decreases p,
        {
            assert(sorted.take(p as int).last() == r@[p - 1]@);
            assert(sorted.take(p as int).drop_last() =~= sorted.take(p - 1));
            p = p - 1;
        }
        proof {
            assert(p > 0 ==> sorted.take(p as int).last() == r@[p - 1]@);
            assert(place(sorted, file) == p);
            assert(all.take(i + 1).drop_last() =~= all.take(i as int));
            assert(all.take(i + 1).last() == file);
        }
        let ghost before = r@;
        r.insert(p, copied(&files[i]));
        assert(provenance(r@) =~= sorted.insert(p as int, file));
        i = i + 1;
    }
    assert(all.take(i as int) =~= all);
    r
}

fn is_before(a: &String, b: &String) -> (r: bool)
    ensures
        r == text_before(a@, b@),
{
    match compare_text(a.as_str(), b.as_str()) {
        TextOrder::Before => true,
        _ => false,
    }
}

fn same_file(a: &PathProvenance, b: &PathProvenance) -> (r: bool)
    ensures
        r == (a@ == b@),
{
    let same_sha = match (&a.sha256, &b.sha256) {
        (Some(x), Some(y)) => same_text(x.as_str(), y.as_str()),
        (None, None) => true,
        _ => false,
    };
    let same_length = match (a.byte_length, b.byte_length) {
        (Some(x), Some(y)) => x == y,
        (None, None) => true,
        _ => false,
    };
    same_sha && same_length && same_text(a.path.as_str(), b.path.as_str())
}

fn same_provenance(a: &Vec<PathProvenance>, b: &Vec<PathProvenance>) -> (r: bool)
    ensures
        r == (provenance(a@) == provenance(b@)),
{
    let ghost x = provenance(a@);
    let ghost y = provenance(b@);
    if a.len() != b.len() {
        assert(x.len() != y.len());
        return false;
    }
    let mut i: usize = 0;
    while i < a.len()
        invariant
            x == provenance(a@),
            y == provenance(b@),
            a@.len() == b@.len(),
            i <= a@.len(),
            forall|j: int| 0 <= j < i ==> #[trigger] x[j] == y[j],
        decreases a.len() - i,
    {
        assert(x[i as int] == a@[i as int]@);
        assert(y[i as int] == b@[i as int]@);
        if !same_file(&a[i], &b[i]) {
            return false;
        }
        i = i + 1;
    }
    assert(x =~= y);
    true
}

/// The fingerprint of a file. An absent one is an error that does not name the file.
pub fn input_fingerprint(file: &PathProvenance) -> (r: Result<&str, EvaluationError>)
    ensures
        match r {
            Ok(text) => file@.sha256 == Some(text@),
            Err(e) => e is NoFingerprint && file@.sha256 is None,
        },
{
    match &file.sha256 {
        Some(text) => Ok(text.as_str()),
        None => Err(EvaluationError::NoFingerprint),
    }
}

pub open spec fn corpora(rows: Seq<CorpusEvaluation>) -> Seq<Seq<ProvenanceModel>> {
    rows.map_values(|row: CorpusEvaluation| provenance(row.corpus@))
}

/// Whether a list of files has one with a fingerprint.
pub open spec fn has_fingerprint(files: Seq<ProvenanceModel>, fingerprint: Option<Seq<char>>) -> bool {
    exists|k: int| 0 <= k < files.len() && (#[trigger] files[k]).sha256 == fingerprint
}

/// Whether a fingerprint occurs in another corpus than the one at a position.
pub open spec fn is_shared(
    lists: Seq<Seq<ProvenanceModel>>,
    at: int,
    fingerprint: Option<Seq<char>>,
) -> bool {
    exists|j: int|
        0 <= j < lists.len() && j != at && has_fingerprint(#[trigger] lists[j], fingerprint)
}

/// How many of the first `n` files of a corpus have the bytes of a file in another corpus.
pub open spec fn shared_count(lists: Seq<Seq<ProvenanceModel>>, at: int, n: nat) -> nat
    decreases n,
{
    if n == 0 {
        0
    } else {
        shared_count(lists, at, (n - 1) as nat) + if is_shared(
            lists,
            at,
            lists[at][n - 1].sha256,
        ) {
            1nat
        } else {
            0nat
        }
    }
}

/// Whether every file has a fingerprint.
pub open spec fn all_fingerprinted(lists: Seq<Seq<ProvenanceModel>>) -> bool {
    forall|j: int, k: int|
        0 <= j < lists.len() && 0 <= k < lists[j].len() ==> (#[trigger] lists[j][k]).sha256 is Some
}

fn shared_elsewhere(rows: &Vec<CorpusEvaluation>, at: usize, fingerprint: &str) -> (r: bool)
    requires
        at < rows@.len(),
    ensures
        r == is_shared(corpora(rows@), at as int, Some(fingerprint@)),
{
    let ghost lists = corpora(rows@);
    let mut j: usize = 0;
    while j < rows.len()
        invariant
            lists == corpora(rows@),
            j <= rows@.len(),
            forall|x: int|
                0 <= x < j && x != at ==> !has_fingerprint(#[trigger] lists[x], Some(fingerprint@)),
        decreases rows.len() - j,
    {
        if j != at {
            let files = &rows[j].corpus;
            let ghost list = lists[j as int];
            assert(list == provenance(files@));
            let mut k: usize = 0;
            while k < files.len()
                invariant
                    list == provenance(files@),
                    lists == corpora(rows@),
                    j < rows@.len(),
                    j != at,
                    list == lists[j as int],
                    k <= files@.len(),
                    forall|y: int|
                        0 <= y < k ==> (#[trigger] list[y]).sha256 != Some(fingerprint@),
                decreases files.len() - k,
            {
                assert(list[k as int] == files@[k as int]@);
                if let Some(text) = &files[k].sha256 {
                    if same_text(text.as_str(), fingerprint) {
                        assert(list[k as int].sha256 == Some(fingerprint@));
                        assert(has_fingerprint(lists[j as int], Some(fingerprint@)));
                        return true;
                    }
                }
                k = k + 1;
            }
            assert(!has_fingerprint(lists[j as int], Some(fingerprint@)));
        }
        j = j + 1;
    }
    false
}

/// How many files of each corpus have the bytes of a file in another one. A file without a
/// fingerprint is an error.
pub fn shared_file_counts(rows: &Vec<CorpusEvaluation>) -> (r: Result<
    Vec<usize>,
    EvaluationError,
>)
    ensures
        match r {
            Ok(counts) => {
                &&& all_fingerprinted(corpora(rows@))
                &&& counts@.len() == rows@.len()
                &&& forall|i: int|
                    0 <= i < rows@.len() ==> #[trigger] counts@[i] == shared_count(
                        corpora(rows@),
                        i,
                        corpora(rows@)[i].len(),
                    )
            },
            Err(e) => e is NoFingerprint && !all_fingerprinted(corpora(rows@)),
        },
{
    let ghost lists = corpora(rows@);
    let mut counts: Vec<usize> = Vec::new();
    let mut i: usize = 0;
    while i < rows.len()
        invariant
            lists == corpora(rows@),
            i <= rows@.len(),
            counts@.len() == i,
            forall|x: int|
                0 <= x < i ==> #[trigger] counts@[x] == shared_count(lists, x, lists[x].len()),
            forall|j: int, k: int|
                0 <= j < i && 0 <= k < lists[j].len() ==> (#[trigger] lists[j][k]).sha256 is Some,
        decreases rows.len() - i,
    {
        let files = &rows[i].corpus;
        let ghost list = lists[i as int];
        assert(list == provenance(files@));
        let mut shared: usize = 0;
        let mut k: usize = 0;
        while k < files.len()
            invariant
                lists == corpora(rows@),
                i < rows@.len(),
                list == lists[i as int],
                list == provenance(files@),
                k <= files@.len(),
                shared <= k,
                shared == shared_count(lists, i as int, k as nat),
                forall|y: int| 0 <= y < k ==> (#[trigger] lists[i as int][y]).sha256 is Some,
            decreases files.len() - k,
        {
            assert(list[k as int] == files@[k as int]@);
            let fingerprint = match input_fingerprint(&files[k]) {
                Ok(fingerprint) => fingerprint,
                Err(e) => {
                    assert(lists[i as int][k as int].sha256 is None);
                    return Err(e);
                },
            };
            if shared_elsewhere(rows, i, fingerprint) {
                shared = shared + 1;
            }
            k = k + 1;
        }
        counts.push(shared);
        i = i + 1;
    }
    Ok(counts)
}

/// Completes an evaluation with its corpora: each is told how many of its files have the bytes of
/// a file in another one, and is otherwise kept.
pub fn finish_evaluation(report: EvaluationReport, rows: Vec<CorpusEvaluation>) -> (r: Result<
    EvaluationReport,
    EvaluationError,
>)
    ensures
        match r {
            Ok(done) => {
                &&& all_fingerprinted(corpora(rows@))
                &&& done.report_kind == report.report_kind
                &&& done.safety_note == report.safety_note
                &&& done.candidate_sha256 == report.candidate_sha256
                &&& done.plan_sha256 == report.plan_sha256
                &&& done.maximum_displayed_paths_and_peers
                    == report.maximum_displayed_paths_and_peers
                &&& done.corpora@.len() == rows@.len()
                &&& forall|i: int|
                    0 <= i < rows@.len() ==> (#[trigger] done.corpora@[i]) == (CorpusEvaluation {
                        files_with_identical_bytes_in_another_cohort: shared_count(
                            corpora(rows@),
                            i,
                            corpora(rows@)[i].len(),
                        ) as usize,
                        ..rows@[i]
                    })
            },
            Err(e) => e is NoFingerprint && !all_fingerprinted(corpora(rows@)),
        },
{
    let counts = match shared_file_counts(&rows) {
        Ok(counts) => counts,
        Err(e) => {
            return Err(e);
        },
    };
    let ghost given = rows@;
    let mut done = rows;
    let mut i: usize = 0;
    while i < done.len()
        invariant
            i <= done@.len(),
            done@.len() == given.len(),
            counts@.len() == given.len(),
            forall|x: int| i <= x < given.len() ==> (#[trigger] done@[x]) == given[x],
            forall|x: int|
                0 <= x < i ==> (#[trigger] done@[x]) == (CorpusEvaluation {
                    files_with_identical_bytes_in_another_cohort: counts@[x],
                    ..given[x]
                }),
        decreases done.len() - i,
    {
        done[i].files_with_identical_bytes_in_another_cohort = counts[i];
        i = i + 1;
    }
    Ok(EvaluationReport { corpora: done, ..report })
}

/// Two cohorts that share a file are both told so.
pub proof fn sharing_is_mutual(lists: Seq<Seq<ProvenanceModel>>, a: int, b: int, k: int)
    requires
        0 <= a < lists.len(),
        0 <= b < lists.len(),
        a != b,
        0 <= k < lists[a].len(),
        has_fingerprint(lists[b], lists[a][k].sha256),
    ensures
        is_shared(lists, a, lists[a][k].sha256),
        is_shared(lists, b, lists[a][k].sha256),
{
    assert(has_fingerprint(lists[a], lists[a][k].sha256));
}

} // verus!
