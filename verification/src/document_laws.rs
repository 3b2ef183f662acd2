//! What exported documents hold of a run: each CVE of its report with its counts, and observed
//! addresses and paths only with leave.

use crate::candidate::DefensiveCandidate;
use crate::comparison::{number_or_zero, text_at};
use crate::condition::CompatibilityReport;
use crate::cti_export::{
    all_finding_attributes, attribute, date_of, finding_attributes, findings_of, frame_of,
    identity_object, marking_for, marking_object, misp_attributes, misp_document, note_object,
    observables_of, observed_object, report_object, stix_document, stix_parts, time_of,
    vulnerability_attribute, vulnerability_object, with_addresses, with_findings, with_paths,
    FrameModel, ObservableModel, Parts, TlpLevel,
};
use crate::evidence::{candidate_evidence_model, count_model, evidence_model, report_model};
use crate::json::{field2, field_of, JsonModel};
use crate::json_order::{field_order_orders, in_field_order};
use crate::network::parsed_address;
use crate::ordered::{ordered_texts, ordered_texts_lists_the_members};
use crate::text::decimal;
use vstd::prelude::*;

verus! {

proof fn lemma_field(fields: Seq<(Seq<char>, JsonModel)>, name: Seq<char>, k: int)
    requires
        0 <= k < fields.len(),
        fields[k].0 == name,
        forall|j: int| 0 <= j < k ==> (#[trigger] fields[j]).0 != name,
    ensures
        field_of(JsonModel::Object(fields), name) == Some(fields[k].1),
    decreases k,
{
    if k > 0 {
        let rest = fields.skip(1);
        assert forall|j: int| 0 <= j < k - 1 implies (#[trigger] rest[j]).0 != name by {
            assert(rest[j] == fields[j + 1]);
        }
        assert(fields[0].0 != name);
        lemma_field(rest, name, k - 1);
    }
}

/// The marking of a document is the one that was chosen; without a choice it is red with observed
/// values and amber without them.
pub proof fn observed_values_are_marked_red(chosen: Option<TlpLevel>, include_observables: bool)
    ensures
        chosen is Some ==> Some(marking_for(chosen, include_observables)) == chosen,
        chosen is None ==> marking_for(chosen, include_observables) == (if include_observables {
            TlpLevel::Red
        } else {
            TlpLevel::Amber
        }),
{
}

/// Whether a finding has a text at a field.
pub open spec fn has_text(finding: Option<JsonModel>, name: Seq<char>, t: Seq<char>) -> bool {
    finding is Some && field_of(finding.unwrap(), name) == Some(JsonModel::Text(t))
}

/// Whether a finding has an address that cannot be read.
pub open spec fn has_bad_address(finding: Option<JsonModel>) -> bool {
    exists|t: Seq<char>| #[trigger]
        has_text(finding, "source_ip"@, t) && parsed_address(t) is None
}

/// The observed addresses of findings are the readable ones at their `source_ip`, and the observed
/// paths those at their `uri_path`. A finding that could not be read is counted, and so is one
/// whose address cannot be.
pub proof fn observables_are_those_of_the_findings(
    findings: Seq<Option<JsonModel>>,
    t: Seq<char>,
)
    ensures
        ({
            let o = observables_of(findings);
            &&& o.source_ips.finite() && o.uri_paths.finite()
            &&& o.source_ips.contains(t) == (parsed_address(t) is Some && exists|i: int|
                0 <= i < findings.len() && has_text(#[trigger] findings[i], "source_ip"@, t))
            &&& o.uri_paths.contains(t) == exists|i: int|
                0 <= i < findings.len() && has_text(#[trigger] findings[i], "uri_path"@, t)
            &&& o.malformed == findings.filter(|f: Option<JsonModel>| f is None).len()
            &&& o.invalid == findings.filter(|f: Option<JsonModel>| has_bad_address(f)).len()
        }),
    decreases findings.len(),
{
    reveal(Seq::filter);
    if findings.len() > 0 {
        let before = findings.drop_last();
        let last = findings.last();
        observables_are_those_of_the_findings(before, t);
        assert(findings[findings.len() - 1] == last);
        if exists|i: int|
            0 <= i < before.len() && has_text(#[trigger] before[i], "source_ip"@, t) {
            let i = choose|i: int|
                0 <= i < before.len() && has_text(#[trigger] before[i], "source_ip"@, t);
            assert(findings[i] == before[i]);
        }
        if exists|i: int|
            0 <= i < findings.len() && has_text(#[trigger] findings[i], "source_ip"@, t) {
            let i = choose|i: int|
                0 <= i < findings.len() && has_text(#[trigger] findings[i], "source_ip"@, t);
            if i < before.len() {
                assert(before[i] == findings[i]);
            }
        }
        if exists|i: int| 0 <= i < before.len() && has_text(#[trigger] before[i], "uri_path"@, t) {
            let i = choose|i: int|
                0 <= i < before.len() && has_text(#[trigger] before[i], "uri_path"@, t);
            assert(findings[i] == before[i]);
        }
        if exists|i: int|
            0 <= i < findings.len() && has_text(#[trigger] findings[i], "uri_path"@, t) {
            let i = choose|i: int|
                0 <= i < findings.len() && has_text(#[trigger] findings[i], "uri_path"@, t);
            if i < before.len() {
                assert(before[i] == findings[i]);
            }
        }
        if last is Some {
            let ip = text_at(field_of(last.unwrap(), "source_ip"@));
            if ip is Some {
                assert(has_text(last, "source_ip"@, ip.unwrap()));
            }
        }
    }
}

/// Whether an object has a type and a text at a field.
pub open spec fn is_of(object: JsonModel, kind: Seq<char>, name: Seq<char>, value: JsonModel) -> bool {
    field_of(object, "type"@) == Some(JsonModel::Text(kind)) && field_of(object, name) == Some(value)
}

proof fn lemma_vulnerability(f: FrameModel, cve: Seq<char>)
    ensures
        is_of(vulnerability_object(f, cve), "vulnerability"@, "name"@, JsonModel::Text(cve)),
{
    let fields = vulnerability_object(f, cve)->Object_0;
    reveal_strlit("created");
    reveal_strlit("created_by_ref");
    reveal_strlit("external_references");
    reveal_strlit("id");
    reveal_strlit("modified");
    reveal_strlit("name");
    reveal_strlit("object_marking_refs");
    reveal_strlit("spec_version");
    reveal_strlit("type");
    assert("name"@[0] != "type"@[0]);
    assert("created"@.len() == 7 && "created_by_ref"@.len() == 14
        && "external_references"@.len() == 19 && "id"@.len() == 2 && "modified"@.len() == 8
        && "name"@.len() == 4 && "object_marking_refs"@.len() == 19 && "spec_version"@.len() == 12
        && "type"@.len() == 4);
    lemma_field(fields, "name"@, 5);
    lemma_field(fields, "type"@, 8);
}

proof fn lemma_note(f: FrameModel, cve: Seq<char>, finding: JsonModel)
    ensures
        is_of(
            note_object(f, cve, finding),
            "note"@,
            "x_shenron_request_count"@,
            JsonModel::Number(decimal(number_or_zero(field_of(finding, "request_count"@)))),
        ),
{
    let fields = note_object(f, cve, finding)->Object_0;
    reveal_strlit("abstract");
    reveal_strlit("content");
    reveal_strlit("created");
    reveal_strlit("created_by_ref");
    reveal_strlit("id");
    reveal_strlit("modified");
    reveal_strlit("object_marking_refs");
    reveal_strlit("object_refs");
    reveal_strlit("spec_version");
    reveal_strlit("type");
    reveal_strlit("x_shenron_detectability");
    reveal_strlit("x_shenron_distinctive_path_matches");
    reveal_strlit("x_shenron_generic_path_matches");
    reveal_strlit("x_shenron_request_count");
    assert("x_shenron_detectability"@[10] != "x_shenron_request_count"@[10]);
    assert("x_shenron_request_count"@.len() == 23 && "type"@.len() == 4);
    assert("abstract"@.len() == 8 && "content"@.len() == 7 && "created"@.len() == 7
        && "created_by_ref"@.len() == 14 && "id"@.len() == 2 && "modified"@.len() == 8
        && "object_marking_refs"@.len() == 19 && "object_refs"@.len() == 11
        && "spec_version"@.len() == 12 && "x_shenron_distinctive_path_matches"@.len() == 34
        && "x_shenron_generic_path_matches"@.len() == 30);
    lemma_field(fields, "type"@, 9);
    lemma_field(fields, "x_shenron_request_count"@, 13);
}

proof fn lemma_observed(f: FrameModel, kind: Seq<char>, value: Seq<char>)
    ensures
        is_of(observed_object(f, kind, value), kind, "value"@, JsonModel::Text(value)),
{
    let fields = observed_object(f, kind, value)->Object_0;
    reveal_strlit("id");
    reveal_strlit("object_marking_refs");
    reveal_strlit("spec_version");
    reveal_strlit("type");
    reveal_strlit("value");
    assert("id"@.len() == 2 && "object_marking_refs"@.len() == 19 && "spec_version"@.len() == 12
        && "type"@.len() == 4 && "value"@.len() == 5);
    lemma_field(fields, "type"@, 3);
    lemma_field(fields, "value"@, 4);
}

proof fn lemma_findings_hold(
    p: Parts,
    f: FrameModel,
    findings: Seq<JsonModel>,
    n: nat,
    i: int,
    cve: Seq<char>,
)
    requires
        0 <= i < n <= findings.len(),
        text_at(field_of(findings[i], "cve"@)) == Some(cve),
    ensures
        with_findings(p, f, findings, n).objects.contains(vulnerability_object(f, cve)),
        with_findings(p, f, findings, n).objects.contains(note_object(f, cve, findings[i])),
    decreases n,
{
    let before = with_findings(p, f, findings, (n - 1) as nat).objects;
    let all = with_findings(p, f, findings, n).objects;
    let (v, w) = (vulnerability_object(f, cve), note_object(f, cve, findings[i]));
    if i == n - 1 {
        assert(all[all.len() - 2] == v);
        assert(all[all.len() - 1] == w);
    } else {
        lemma_findings_hold(p, f, findings, (n - 1) as nat, i, cve);
        let (a, b) = (before.index_of(v), before.index_of(w));
        assert(all[a] == v && all[b] == w);
    }
}

proof fn lemma_addresses_keep(p: Parts, f: FrameModel, ips: Seq<Seq<char>>, n: nat, x: JsonModel)
    requires
        n <= ips.len(),
    ensures
        p.objects.contains(x) ==> with_addresses(p, f, ips, n).objects.contains(x),
        forall|i: int|
            0 <= i < n ==> with_addresses(p, f, ips, n).objects.contains(
                observed_object(f, crate::cti_export::address_kind(#[trigger] ips[i]), ips[i]),
            ),
    decreases n,
{
    if n > 0 {
        lemma_addresses_keep(p, f, ips, (n - 1) as nat, x);
        let before = with_addresses(p, f, ips, (n - 1) as nat).objects;
        let all = with_addresses(p, f, ips, n).objects;
        if before.contains(x) {
            let a = before.index_of(x);
            assert(all[a] == x);
        }
        assert forall|i: int| 0 <= i < n implies all.contains(
            observed_object(f, crate::cti_export::address_kind(#[trigger] ips[i]), ips[i]),
        ) by {
            let y = observed_object(f, crate::cti_export::address_kind(ips[i]), ips[i]);
            if i == n - 1 {
                assert(all[all.len() - 1] == y);
            } else {
                let a = before.index_of(y);
                assert(all[a] == y);
            }
        }
    }
}

proof fn lemma_paths_keep(p: Parts, f: FrameModel, paths: Seq<Seq<char>>, n: nat, x: JsonModel)
    requires
        n <= paths.len(),
    ensures
        p.objects.contains(x) ==> with_paths(p, f, paths, n).objects.contains(x),
        forall|i: int|
            0 <= i < n ==> with_paths(p, f, paths, n).objects.contains(
                observed_object(f, "x-shenron-uri-path"@, #[trigger] paths[i]),
            ),
    decreases n,
{
    if n > 0 {
        lemma_paths_keep(p, f, paths, (n - 1) as nat, x);
        let before = with_paths(p, f, paths, (n - 1) as nat).objects;
        let all = with_paths(p, f, paths, n).objects;
        if before.contains(x) {
            let a = before.index_of(x);
            assert(all[a] == x);
        }
        assert forall|i: int| 0 <= i < n implies all.contains(
            observed_object(f, "x-shenron-uri-path"@, #[trigger] paths[i]),
        ) by {
            let y = observed_object(f, "x-shenron-uri-path"@, paths[i]);
            if i == n - 1 {
                assert(all[all.len() - 1] == y);
            } else {
                let a = before.index_of(y);
                assert(all[a] == y);
            }
        }
    }
}

proof fn lemma_ordered_keeps(objects: Seq<JsonModel>, first: Seq<char>, second: Seq<char>, x: JsonModel)
    ensures
        in_field_order(objects, first, second).contains(x) == objects.contains(x),
{
    broadcast use vstd::seq_lib::group_to_multiset_ensures;

    field_order_orders(objects, first, second);
    let list = in_field_order(objects, first, second);
    assert(list.contains(x) == (list.to_multiset().count(x) > 0));
    assert(objects.contains(x) == (objects.to_multiset().count(x) > 0));
}

/// The objects of a bundle.
pub open spec fn objects_of(document: JsonModel) -> Seq<JsonModel> {
    match field_of(document, "objects"@) {
        Some(JsonModel::List(objects)) => objects,
        _ => seq![],
    }
}

proof fn lemma_objects(
    sanitized: JsonModel,
    manifest: Option<JsonModel>,
    bytes: Seq<u8>,
    o: ObservableModel,
    include_observables: bool,
    tlp: TlpLevel,
    x: JsonModel,
)
    ensures
        ({
            let f = frame_of(time_of(sanitized, manifest), tlp);
            let p = stix_parts(f, sanitized, o, include_observables, tlp);
            let report = report_object(
                f,
                sanitized,
                manifest,
                bytes,
                o,
                include_observables,
                p.refs,
            );
            objects_of(
                stix_document(sanitized, manifest, bytes, o, include_observables, tlp),
            ).contains(x) == (p.objects.contains(x) || x == report)
        }),
{
    let document = stix_document(sanitized, manifest, bytes, o, include_observables, tlp);
    let f = frame_of(time_of(sanitized, manifest), tlp);
    let p = stix_parts(f, sanitized, o, include_observables, tlp);
    let report = report_object(f, sanitized, manifest, bytes, o, include_observables, p.refs);
    let all = p.objects.push(report);
    reveal_strlit("id");
    reveal_strlit("objects");
    assert("id"@.len() == 2 && "objects"@.len() == 7);
    lemma_field(document->Object_0, "objects"@, 1);
    lemma_ordered_keeps(all, "type"@, "id"@, x);
    if p.objects.contains(x) {
        let a = p.objects.index_of(x);
        assert(all[a] == x);
    }
    assert(all[all.len() - 1] == report);
    if all.contains(x) {
        let a = all.index_of(x);
        if a < p.objects.len() {
            assert(p.objects[a] == x);
        }
    }
}

/// A bundle has, for each finding of the report that names a CVE, a vulnerability of that name,
/// and a note with the number of its requests.
pub proof fn bundles_hold_each_cve(
    sanitized: JsonModel,
    manifest: Option<JsonModel>,
    bytes: Seq<u8>,
    o: ObservableModel,
    include_observables: bool,
    tlp: TlpLevel,
    i: int,
    cve: Seq<char>,
)
    requires
        0 <= i < findings_of(sanitized).len(),
        field_of(findings_of(sanitized)[i], "cve"@) == Some(JsonModel::Text(cve)),
    ensures
        ({
            let objects = objects_of(
                stix_document(sanitized, manifest, bytes, o, include_observables, tlp),
            );
            let requests = number_or_zero(
                field_of(findings_of(sanitized)[i], "request_count"@),
            );
            &&& exists|k: int|
                0 <= k < objects.len() && is_of(
                    #[trigger] objects[k],
                    "vulnerability"@,
                    "name"@,
                    JsonModel::Text(cve),
                )
            &&& exists|k: int|
                0 <= k < objects.len() && is_of(
                    #[trigger] objects[k],
                    "note"@,
                    "x_shenron_request_count"@,
                    JsonModel::Number(decimal(requests)),
                )
        }),
{
    let f = frame_of(time_of(sanitized, manifest), tlp);
    let findings = findings_of(sanitized);
    let p0 = Parts {
        objects: Seq::<JsonModel>::empty().push(marking_object(f, tlp)).push(identity_object(f)),
        refs: Seq::<Seq<char>>::empty().push(f.identity),
    };
    let (v, w) = (vulnerability_object(f, cve), note_object(f, cve, findings[i]));
    lemma_findings_hold(p0, f, findings, findings.len(), i, cve);
    let p1 = with_findings(p0, f, findings, findings.len());
    if include_observables {
        let (ips, paths) = (ordered_texts(o.source_ips), ordered_texts(o.uri_paths));
        let p2 = with_addresses(p1, f, ips, ips.len());
        lemma_addresses_keep(p1, f, ips, ips.len(), v);
        lemma_addresses_keep(p1, f, ips, ips.len(), w);
        lemma_paths_keep(p2, f, paths, paths.len(), v);
        lemma_paths_keep(p2, f, paths, paths.len(), w);
    }
    lemma_objects(sanitized, manifest, bytes, o, include_observables, tlp, v);
    lemma_objects(sanitized, manifest, bytes, o, include_observables, tlp, w);
    lemma_vulnerability(f, cve);
    lemma_note(f, cve, findings[i]);
    let objects = objects_of(
        stix_document(sanitized, manifest, bytes, o, include_observables, tlp),
    );
    let (a, b) = (objects.index_of(v), objects.index_of(w));
    assert(objects[a] == v && objects[b] == w);
}

/// With leave a bundle has each observed address, by its family, and each observed path.
pub proof fn bundles_hold_observed_values_with_leave(
    sanitized: JsonModel,
    manifest: Option<JsonModel>,
    bytes: Seq<u8>,
    o: ObservableModel,
    tlp: TlpLevel,
    t: Seq<char>,
)
    requires
        o.source_ips.finite(),
        o.uri_paths.finite(),
    ensures
        ({
            let objects = objects_of(stix_document(sanitized, manifest, bytes, o, true, tlp));
            let family = if parsed_address(t) is Some && parsed_address(t).unwrap().v4 {
                "ipv4-addr"@
            } else {
                "ipv6-addr"@
            };
            &&& o.source_ips.contains(t) ==> exists|k: int|
                0 <= k < objects.len() && is_of(
                    #[trigger] objects[k],
                    family,
                    "value"@,
                    JsonModel::Text(t),
                )
            &&& o.uri_paths.contains(t) ==> exists|k: int|
                0 <= k < objects.len() && is_of(
                    #[trigger] objects[k],
                    "x-shenron-uri-path"@,
                    "value"@,
                    JsonModel::Text(t),
                )
        }),
{
    let f = frame_of(time_of(sanitized, manifest), tlp);
    let findings = findings_of(sanitized);
    let p0 = Parts {
        objects: Seq::<JsonModel>::empty().push(marking_object(f, tlp)).push(identity_object(f)),
        refs: Seq::<Seq<char>>::empty().push(f.identity),
    };
    let p1 = with_findings(p0, f, findings, findings.len());
    let (ips, paths) = (ordered_texts(o.source_ips), ordered_texts(o.uri_paths));
    let p2 = with_addresses(p1, f, ips, ips.len());
    let family = crate::cti_export::address_kind(t);
    let (x, y) = (observed_object(f, family, t), observed_object(f, "x-shenron-uri-path"@, t));
    ordered_texts_lists_the_members(o.source_ips);
    ordered_texts_lists_the_members(o.uri_paths);
    lemma_addresses_keep(p1, f, ips, ips.len(), x);
    lemma_paths_keep(p2, f, paths, paths.len(), x);
    lemma_observed(f, family, t);
    lemma_observed(f, "x-shenron-uri-path"@, t);
    lemma_objects(sanitized, manifest, bytes, o, true, tlp, x);
    lemma_objects(sanitized, manifest, bytes, o, true, tlp, y);
    let objects = objects_of(stix_document(sanitized, manifest, bytes, o, true, tlp));
    if o.source_ips.contains(t) {
        assert(ips.to_set().contains(t));
        let i = ips.index_of(t);
        assert(ips[i] == t);
        assert(p2.objects.contains(x));
        let a = objects.index_of(x);
        assert(objects[a] == x);
    }
    if o.uri_paths.contains(t) {
        assert(paths.to_set().contains(t));
        let i = paths.index_of(t);
        assert(paths[i] == t);
        let a = objects.index_of(y);
        assert(objects[a] == y);
    }
}

proof fn lemma_attribute(kind: Seq<char>, category: Seq<char>, value: Seq<char>, comment: Seq<char>)
    ensures
        is_of(
            attribute(kind, category, value, comment),
            kind,
            "value"@,
            JsonModel::Text(value),
        ),
        field_of(attribute(kind, category, value, comment), "to_ids"@) == Some(
            JsonModel::Bool(false),
        ),
        field_of(attribute(kind, category, value, comment), "comment"@) == Some(
            JsonModel::Text(comment),
        ),
{
    let fields = attribute(kind, category, value, comment)->Object_0;
    reveal_strlit("category");
    reveal_strlit("comment");
    reveal_strlit("to_ids");
    reveal_strlit("type");
    reveal_strlit("value");
    assert("category"@.len() == 8 && "comment"@.len() == 7 && "to_ids"@.len() == 6 && "type"@.len()
        == 4 && "value"@.len() == 5);
    lemma_field(fields, "comment"@, 1);
    lemma_field(fields, "to_ids"@, 2);
    lemma_field(fields, "type"@, 3);
    lemma_field(fields, "value"@, 4);
}

proof fn lemma_all_attributes(findings: Seq<JsonModel>, n: nat, i: int, cve: Seq<char>)
    requires
        0 <= i < n <= findings.len(),
        text_at(field_of(findings[i], "cve"@)) == Some(cve),
    ensures
        all_finding_attributes(findings, n).contains(vulnerability_attribute(cve, findings[i])),
    decreases n,
{
    let before = all_finding_attributes(findings, (n - 1) as nat);
    let all = all_finding_attributes(findings, n);
    let x = vulnerability_attribute(cve, findings[i]);
    if i == n - 1 {
        assert(finding_attributes(findings[i])[0] == x);
        assert(all[before.len() as int] == x);
    } else {
        lemma_all_attributes(findings, (n - 1) as nat, i, cve);
        let a = before.index_of(x);
        assert(all[a] == x);
    }
}

/// The attributes of an event.
pub open spec fn attributes_of(document: JsonModel) -> Seq<JsonModel> {
    match field2(document, "Event"@, "Attribute"@) {
        Some(JsonModel::List(list)) => list,
        _ => seq![],
    }
}

/// An event of MISP is never published nor distributed. It has the date of the run.
pub proof fn events_stay_private(
    sanitized: JsonModel,
    manifest: Option<JsonModel>,
    bytes: Seq<u8>,
    o: ObservableModel,
    include_observables: bool,
    tlp: TlpLevel,
)
    ensures
        ({
            let document = misp_document(sanitized, manifest, bytes, o, include_observables, tlp);
            &&& field2(document, "Event"@, "published"@) == Some(JsonModel::Bool(false))
            &&& field2(document, "Event"@, "distribution"@) == Some(JsonModel::Text("0"@))
            &&& field2(document, "Event"@, "date"@) == Some(
                JsonModel::Text(date_of(time_of(sanitized, manifest))),
            )
            &&& attributes_of(document) == in_field_order(
                misp_attributes(sanitized, o, include_observables),
                "type"@,
                "value"@,
            )
        }),
{
    let document = misp_document(sanitized, manifest, bytes, o, include_observables, tlp);
    let event = document->Object_0[0].1;
    let fields = event->Object_0;
    reveal_strlit("Attribute");
    reveal_strlit("Shenron");
    reveal_strlit("Tag");
    reveal_strlit("analysis");
    reveal_strlit("date");
    reveal_strlit("distribution");
    reveal_strlit("info");
    reveal_strlit("published");
    assert("Attribute"@[0] != "published"@[0] && "info"@[0] != "date"@[0]);
    assert("Attribute"@.len() == 9 && "Shenron"@.len() == 7 && "Tag"@.len() == 3
        && "analysis"@.len() == 8 && "date"@.len() == 4 && "distribution"@.len() == 12
        && "info"@.len() == 4 && "published"@.len() == 9);
    lemma_field(document->Object_0, "Event"@, 0);
    lemma_field(fields, "Attribute"@, 0);
    lemma_field(fields, "date"@, 4);
    lemma_field(fields, "distribution"@, 5);
    lemma_field(fields, "published"@, 7);
}

/// An event of MISP has, for each finding of the report that names a CVE, a vulnerability of that
/// value.
pub proof fn events_hold_each_cve(
    sanitized: JsonModel,
    manifest: Option<JsonModel>,
    bytes: Seq<u8>,
    o: ObservableModel,
    include_observables: bool,
    tlp: TlpLevel,
    i: int,
    cve: Seq<char>,
)
    requires
        0 <= i < findings_of(sanitized).len(),
        field_of(findings_of(sanitized)[i], "cve"@) == Some(JsonModel::Text(cve)),
    ensures
        ({
            let list = attributes_of(
                misp_document(sanitized, manifest, bytes, o, include_observables, tlp),
            );
            exists|k: int|
                0 <= k < list.len() && is_of(
                    #[trigger] list[k],
                    "vulnerability"@,
                    "value"@,
                    JsonModel::Text(cve),
                )
        }),
{
    let attributes = misp_attributes(sanitized, o, include_observables);
    let findings = findings_of(sanitized);
    let x = vulnerability_attribute(cve, findings[i]);
    events_stay_private(sanitized, manifest, bytes, o, include_observables, tlp);
    lemma_all_attributes(findings, findings.len(), i, cve);
    let first = all_finding_attributes(findings, findings.len());
    let a = first.index_of(x);
    assert(attributes[a] == x);
    lemma_ordered_keeps(attributes, "type"@, "value"@, x);
    let list = in_field_order(attributes, "type"@, "value"@);
    let b = list.index_of(x);
    assert(list[b] == x);
    lemma_attribute(
        "vulnerability"@,
        "External analysis"@,
        cve,
        "CVE-related request-match aggregate: "@ + decimal(
            number_or_zero(field_of(findings[i], "request_count"@)),
        )
            + " requests; not an attack, exploitation, compromise, or vulnerable-product determination"@,
    );
    assert(is_of(list[b], "vulnerability"@, "value"@, JsonModel::Text(cve)));
}

/// The time of a document is when the run was made, else the earliest time that it saw.
pub proof fn documents_have_the_time_of_the_run(
    sanitized: JsonModel,
    manifest: JsonModel,
    t: Seq<char>,
)
    ensures
        field_of(manifest, "generated_at"@) == Some(JsonModel::Text(t)) ==> time_of(
            sanitized,
            Some(manifest),
        ) == t,
        field2(sanitized, "metrics"@, "earliest_timestamp"@) == Some(JsonModel::Text(t))
            ==> time_of(sanitized, None) == t,
{
}

/// The evidence file of an export gives the numbers of the candidate's evidence under their names,
/// and its CVEs and its compatibility.
pub proof fn evidence_is_given_under_its_names(
    c: DefensiveCandidate,
    report: CompatibilityReport,
    coverage: Seq<char>,
)
    ensures
        ({
            let e = candidate_evidence_model(c.evidence, coverage);
            &&& field_of(evidence_model(c, report, coverage), "evidence"@) == Some(e)
            &&& field_of(evidence_model(c, report, coverage), "backend_compatibility"@) == Some(
                report_model(report),
            )
            &&& field_of(evidence_model(c, report, coverage), "candidate_id"@) == Some(
                JsonModel::Text(c.id@),
            )
            &&& field_of(e, "historical_requests_evaluated"@) == Some(
                count_model(c.evidence.historical_requests_evaluated),
            )
            &&& field_of(e, "known_threat_findings"@) == Some(
                count_model(c.evidence.known_threat_findings),
            )
            &&& field_of(e, "known_threat_findings_matched"@) == Some(
                count_model(c.evidence.known_threat_findings_matched),
            )
            &&& field_of(e, "known_threat_findings_missed"@) == Some(
                count_model(c.evidence.known_threat_findings_missed),
            )
            &&& field_of(e, "other_historical_matches"@) == Some(
                count_model(c.evidence.other_historical_matches),
            )
        }),
{
    let outer = evidence_model(c, report, coverage)->Object_0;
    let inner = candidate_evidence_model(c.evidence, coverage)->Object_0;
    reveal_strlit("candidate_id");
    reveal_strlit("cves");
    reveal_strlit("kev");
    reveal_strlit("evidence");
    reveal_strlit("recommended_initial_action");
    reveal_strlit("backend_compatibility");
    assert("candidate_id"@.len() == 12 && "cves"@.len() == 4 && "kev"@.len() == 3
        && "evidence"@.len() == 8 && "recommended_initial_action"@.len() == 26
        && "backend_compatibility"@.len() == 21);
    lemma_field(outer, "candidate_id"@, 0);
    lemma_field(outer, "evidence"@, 3);
    lemma_field(outer, "backend_compatibility"@, 5);
    reveal_strlit("historical_requests_evaluated");
    reveal_strlit("known_threat_findings");
    reveal_strlit("known_threat_findings_matched");
    reveal_strlit("known_threat_findings_missed");
    reveal_strlit("other_historical_matches");
    assert("historical_requests_evaluated"@.len() == 29 && "known_threat_findings"@.len() == 21
        && "known_threat_findings_matched"@.len() == 29 && "known_threat_findings_missed"@.len()
        == 28 && "other_historical_matches"@.len() == 24);
    assert("historical_requests_evaluated"@[0] != "known_threat_findings_matched"@[0]);
    lemma_field(inner, "historical_requests_evaluated"@, 0);
    lemma_field(inner, "known_threat_findings"@, 1);
    lemma_field(inner, "known_threat_findings_matched"@, 2);
    lemma_field(inner, "known_threat_findings_missed"@, 3);
    lemma_field(inner, "other_historical_matches"@, 4);
}

} // verus!
