//! What the comparison of two stored runs says of what the runs hold.

use crate::comparison::{
    cves_of, incomparable, is_concentration_delta, is_cve_diff, is_volume_detail, path_volumes,
    reported_cves, signed_difference, source_volumes, ConcentrationDeltaPrivate,
    ConcentrationDeltaSummary, CveDiff, CveModel, RunArtifacts, VolumeDetail,
};
use crate::json::{field_of, whole_number, JsonModel};
use crate::ordered::{increasing, ordered_texts_lists_the_members};
use crate::text::{opt_text, texts};
use crate::volume_report::{
    PrivatePathConcentration, PrivateRequestConcentrationReport, PrivateSourceConcentration,
};
use vstd::prelude::*;

verus! {

/// Whether an entry of a report names a CVE.
pub open spec fn entry_names(item: JsonModel, cve: Seq<char>) -> bool {
    field_of(item, "cve"@) == Some(JsonModel::Text(cve))
}

/// Whether an entry of a list is the last one that names a CVE.
pub open spec fn is_last_entry(items: Seq<JsonModel>, i: int, cve: Seq<char>) -> bool {
    &&& 0 <= i < items.len()
    &&& entry_names(items[i], cve)
    &&& forall|k: int| i < k < items.len() ==> !entry_names(#[trigger] items[k], cve)
}

/// A count of an entry, which is zero where there is none.
pub open spec fn entry_count(item: JsonModel, name: Seq<char>) -> nat {
    match field_of(item, name) {
        Some(value) => match whole_number(value) {
            Some(n) => n,
            None => 0,
        },
        None => 0,
    }
}

/// A CVE is read from a report where one of its entries names it, and with the counts that the
/// last of these has.
pub proof fn cves_are_read_from_their_entries(items: Seq<JsonModel>, cve: Seq<char>)
    requires
        cves_of(items) is Some,
    ensures
        ({
            let m = cves_of(items).unwrap();
            &&& m.dom().finite()
            &&& m.dom().contains(cve) == exists|i: int|
                0 <= i < items.len() && entry_names(#[trigger] items[i], cve)
            &&& m.dom().contains(cve) ==> exists|i: int| #[trigger]
                is_last_entry(items, i, cve) && m[cve].request_count == entry_count(
                    items[i],
                    "request_count"@,
                ) && m[cve].sources == entry_count(items[i], "unique_source_clusters"@)
                    && m[cve].ja4 == entry_count(items[i], "unique_ja4_fingerprints"@)
        }),
    decreases items.len(),
{
    if items.len() > 0 {
        let before = items.drop_last();
        let last = items.last();
        cves_are_read_from_their_entries(before, cve);
        let n = items.len() - 1;
        assert(items[n] == last);
        let m = cves_of(items).unwrap();
        if entry_names(last, cve) {
            assert(is_last_entry(items, n, cve));
        } else if m.dom().contains(cve) {
            let b = cves_of(before).unwrap();
            let i = choose|i: int| #[trigger]
                is_last_entry(before, i, cve) && b[cve].request_count == entry_count(
                    before[i],
                    "request_count"@,
                ) && b[cve].sources == entry_count(before[i], "unique_source_clusters"@)
                    && b[cve].ja4 == entry_count(before[i], "unique_ja4_fingerprints"@);
            assert(items[i] == before[i]);
            assert forall|k: int| i < k < items.len() implies !entry_names(
                #[trigger] items[k],
                cve,
            ) by {
                if k < n {
                    assert(before[k] == items[k]);
                }
            }
            assert(is_last_entry(items, i, cve));
        }
        if exists|i: int| 0 <= i < before.len() && entry_names(#[trigger] before[i], cve) {
            let i = choose|i: int| 0 <= i < before.len() && entry_names(#[trigger] before[i], cve);
            assert(items[i] == before[i]);
        }
        if exists|i: int| 0 <= i < items.len() && entry_names(#[trigger] items[i], cve) {
            let i = choose|i: int| 0 <= i < items.len() && entry_names(#[trigger] items[i], cve);
            if i < n {
                assert(before[i] == items[i]);
            }
        }
    }
}

/// The CVEs of a run are those of the entries of its report, which has to be a sanitized one.
pub proof fn reports_name_their_cves(document: JsonModel)
    requires
        reported_cves(document) is Some,
    ensures
        field_of(document, "report_kind"@) == Some(JsonModel::Text("SANITIZED_RESEARCH_OUTPUT"@)),
        field_of(document, "cve_findings"@) matches Some(JsonModel::List(items)) && cves_of(items)
            == reported_cves(document),
{
}

/// A CVE is newly observed where only the current run has it, and gone where only the baseline
/// has it. Of one that both have, each count is given as it was and as it is, with what it grew
/// by, as long as that is in range. Each list is in the order on texts.
pub proof fn cve_changes_are_between_the_runs(
    r: CveDiff,
    b: Map<Seq<char>, CveModel>,
    c: Map<Seq<char>, CveModel>,
    cve: Seq<char>,
    i: int,
)
    requires
        b.dom().finite(),
        c.dom().finite(),
        is_cve_diff(r, b, c),
    ensures
        r.available,
        texts(r.newly_observed_cves@).contains(cve) == (c.dom().contains(cve)
            && !b.dom().contains(cve)),
        texts(r.disappeared_cves@).contains(cve) == (b.dom().contains(cve) && !c.dom().contains(
            cve,
        )),
        increasing(texts(r.newly_observed_cves@)),
        increasing(texts(r.disappeared_cves@)),
        (exists|k: int|
            0 <= k < r.common_cve_deltas@.len() && (#[trigger] r.common_cve_deltas@[k]).cve@ == cve)
            == (b.dom().contains(cve) && c.dom().contains(cve)),
        0 <= i < r.common_cve_deltas@.len() ==> {
            let d = r.common_cve_deltas@[i];
            let (x, y) = (b[d.cve@], c[d.cve@]);
            &&& x.request_count <= u64::MAX && y.request_count <= u64::MAX
                ==> d.request_count.baseline == x.request_count && d.request_count.current
                == y.request_count
            &&& x.request_count <= i64::MAX && y.request_count <= i64::MAX
                ==> d.request_count.delta == y.request_count - x.request_count
            &&& x.sources <= i64::MAX && y.sources <= i64::MAX ==> d.unique_source_clusters.baseline
                == x.sources && d.unique_source_clusters.current == y.sources
                && d.unique_source_clusters.delta == y.sources - x.sources
            &&& x.ja4 <= i64::MAX && y.ja4 <= i64::MAX ==> d.unique_ja4_fingerprints.baseline
                == x.ja4 && d.unique_ja4_fingerprints.current == y.ja4
                && d.unique_ja4_fingerprints.delta == y.ja4 - x.ja4
            &&& opt_text(d.protection_gap_rate.baseline) == x.gap
            &&& opt_text(d.protection_gap_rate.current) == y.gap
        },
{
    let (new, gone, common) = (
        c.dom().difference(b.dom()),
        b.dom().difference(c.dom()),
        b.dom().intersect(c.dom()),
    );
    ordered_texts_lists_the_members(new);
    ordered_texts_lists_the_members(gone);
    ordered_texts_lists_the_members(common);
    let names = crate::comparison::delta_names(r.common_cve_deltas@);
    assert(texts(r.newly_observed_cves@).to_set().contains(cve) == new.contains(cve));
    assert(texts(r.disappeared_cves@).to_set().contains(cve) == gone.contains(cve));
    assert(names.to_set().contains(cve) == common.contains(cve));
    if names.contains(cve) {
        let k = names.index_of(cve);
        assert(r.common_cve_deltas@[k].cve@ == cve);
    }
    if exists|k: int|
        0 <= k < r.common_cve_deltas@.len() && (#[trigger] r.common_cve_deltas@[k]).cve@ == cve {
        let k = choose|k: int|
            0 <= k < r.common_cve_deltas@.len() && (#[trigger] r.common_cve_deltas@[k]).cve@
                == cve;
        assert(names[k] == cve);
    }
}

/// What a count grew by leads from the baseline to the current count, and back with its sign
/// turned.
pub proof fn differences_lead_from_one_count_to_the_other(b: u64, c: u64)
    requires
        -0x7fff_ffff_ffff_ffff <= c - b <= 0x7fff_ffff_ffff_ffff,
    ensures
        b + signed_difference(b, c) == c,
        signed_difference(c, b) == -signed_difference(b, c),
{
}

/// Two runs can be compared exactly where both record their telemetry profile and their triage
/// baseline, and each is the same in both.
pub proof fn only_like_runs_are_comparable(b: RunArtifacts, c: RunArtifacts)
    ensures
        incomparable(b, c).len() == 0 <==> {
            &&& b.provenance.telemetry_profile is Some
            &&& c.provenance.telemetry_profile is Some
            &&& opt_text(b.provenance.telemetry_profile) == opt_text(c.provenance.telemetry_profile)
            &&& b.triage_policy is Some
            &&& c.triage_policy is Some
            &&& opt_text(b.triage_policy) == opt_text(c.triage_policy)
        },
{
}

/// Volumes are given for exactly the keys of the current run, in the order on texts, each with
/// its own count and with that of the baseline where the baseline has the key. A key without a
/// baseline is new; one whose baseline is below thirty requests is not compared, and has no ratio.
pub proof fn volumes_are_those_of_the_runs(
    r: Seq<VolumeDetail>,
    b: Map<Seq<char>, u64>,
    c: Map<Seq<char>, u64>,
    key: Seq<char>,
    i: int,
)
    requires
        c.dom().finite(),
        is_volume_detail(r, b, c),
    ensures
        (exists|k: int| 0 <= k < r.len() && (#[trigger] r[k]).key@ == key) == c.dom().contains(key),
        0 <= i < r.len() ==> {
            let d = r[i];
            let known = b.dom().contains(d.key@);
            &&& c.dom().contains(d.key@)
            &&& d.current_requests == c[d.key@]
            &&& d.baseline_requests is Some == known
            &&& known ==> d.baseline_requests == Some(b[d.key@])
            &&& (d.label@ == "new"@) == !known
            &&& (d.label@ == "low-baseline"@) == (known && b[d.key@] < 30)
            &&& d.ratio is Some == (known && b[d.key@] >= 30)
            &&& d.ratio matches Some(ratio) ==> ratio.numerator == c[d.key@] && ratio.denominator
                == b[d.key@]
        },
{
    reveal_strlit("new");
    reveal_strlit("low-baseline");
    reveal_strlit("elevated");
    reveal_strlit("unchanged");
    assert("new"@.len() == 3 && "low-baseline"@.len() == 12 && "elevated"@.len() == 8
        && "unchanged"@.len() == 9);
    let keys = crate::comparison::detail_keys(r);
    ordered_texts_lists_the_members(c.dom());
    assert(keys.to_set().contains(key) == c.dom().contains(key));
    if keys.contains(key) {
        let k = keys.index_of(key);
        assert(r[k].key@ == key);
    }
    if exists|k: int| 0 <= k < r.len() && (#[trigger] r[k]).key@ == key {
        let k = choose|k: int| 0 <= k < r.len() && (#[trigger] r[k]).key@ == key;
        assert(keys[k] == key);
    }
    if 0 <= i < r.len() {
        assert(keys[i] == r[i].key@);
        assert(keys.to_set().contains(r[i].key@));
        assert(crate::comparison::baseline_of(b, r[i].key@) is Some == b.dom().contains(
            r[i].key@,
        ));
    }
}

/// How many details have a label.
pub open spec fn with_label(r: Seq<VolumeDetail>, label: Seq<char>) -> nat {
    r.filter(|d: VolumeDetail| d.label@ == label).len()
}

proof fn lemma_labelled(r: Seq<VolumeDetail>, label: Seq<char>)
    ensures
        crate::comparison::labelled(r, label) == with_label(r, label),
    decreases r.len(),
{
    reveal(Seq::filter);
    if r.len() > 0 {
        lemma_labelled(r.drop_last(), label);
    }
}

/// A comparison of two volume reports is of the requests of their paths and of their sources, and
/// its numbers are those of the details with each label.
pub proof fn volume_changes_are_of_paths_and_sources(
    r: (ConcentrationDeltaSummary, ConcentrationDeltaPrivate),
    b: PrivateRequestConcentrationReport,
    c: PrivateRequestConcentrationReport,
)
    requires
        is_concentration_delta(r, b, c),
    ensures
        is_volume_detail(r.1.paths@, path_volumes(b.paths@), path_volumes(c.paths@)),
        is_volume_detail(
            r.1.source_ips@,
            source_volumes(b.source_ips@),
            source_volumes(c.source_ips@),
        ),
        r.0.elevated_paths == with_label(r.1.paths@, "elevated"@),
        r.0.elevated_source_ips == with_label(r.1.source_ips@, "elevated"@),
        r.0.low_baseline_paths == with_label(r.1.paths@, "low-baseline"@),
        r.0.low_baseline_source_ips == with_label(r.1.source_ips@, "low-baseline"@),
{
    lemma_labelled(r.1.paths@, "elevated"@);
    lemma_labelled(r.1.source_ips@, "elevated"@);
    lemma_labelled(r.1.paths@, "low-baseline"@);
    lemma_labelled(r.1.source_ips@, "low-baseline"@);
}

/// The volume of a path is that of the last entry for it, and there is one where there is an
/// entry.
pub proof fn path_volumes_are_those_reported(
    list: Seq<PrivatePathConcentration>,
    path: Seq<char>,
)
    ensures
        path_volumes(list).dom().finite(),
        path_volumes(list).dom().contains(path) == exists|i: int|
            0 <= i < list.len() && (#[trigger] list[i]).uri_path@ == path,
        list.len() > 0 && list.last().uri_path@ == path ==> path_volumes(list)[path]
            == list.last().summary.requests,
        list.len() > 0 && list.last().uri_path@ != path ==> path_volumes(list)[path]
            == path_volumes(list.drop_last())[path],
    decreases list.len(),
{
    if list.len() > 0 {
        let before = list.drop_last();
        path_volumes_are_those_reported(before, path);
        assert(list[list.len() - 1] == list.last());
        if exists|i: int| 0 <= i < before.len() && (#[trigger] before[i]).uri_path@ == path {
            let i = choose|i: int| 0 <= i < before.len() && (#[trigger] before[i]).uri_path@ == path;
            assert(list[i] == before[i]);
        }
        if exists|i: int| 0 <= i < list.len() && (#[trigger] list[i]).uri_path@ == path {
            let i = choose|i: int| 0 <= i < list.len() && (#[trigger] list[i]).uri_path@ == path;
            if i < before.len() {
                assert(before[i] == list[i]);
            }
        }
    }
}

/// The same of the volume of a source.
pub proof fn source_volumes_are_those_reported(
    list: Seq<PrivateSourceConcentration>,
    source: Seq<char>,
)
    ensures
        source_volumes(list).dom().finite(),
        source_volumes(list).dom().contains(source) == exists|i: int|
            0 <= i < list.len() && (#[trigger] list[i]).source_ip@ == source,
        list.len() > 0 && list.last().source_ip@ == source ==> source_volumes(list)[source]
            == list.last().requests,
        list.len() > 0 && list.last().source_ip@ != source ==> source_volumes(list)[source]
            == source_volumes(list.drop_last())[source],
    decreases list.len(),
{
    if list.len() > 0 {
        let before = list.drop_last();
        source_volumes_are_those_reported(before, source);
        assert(list[list.len() - 1] == list.last());
        if exists|i: int| 0 <= i < before.len() && (#[trigger] before[i]).source_ip@ == source {
            let i = choose|i: int|
                0 <= i < before.len() && (#[trigger] before[i]).source_ip@ == source;
            assert(list[i] == before[i]);
        }
        if exists|i: int| 0 <= i < list.len() && (#[trigger] list[i]).source_ip@ == source {
            let i = choose|i: int| 0 <= i < list.len() && (#[trigger] list[i]).source_ip@ == source;
            if i < before.len() {
                assert(before[i] == list[i]);
            }
        }
    }
}

} // verus!
