use shenron::cti_export::{
    artifact_date, artifact_time, bare_uuid, effective_tlp, export_run, stix_id, CtiExportFormat,
    PrivateObservables, TlpLevel,
};
use shenron::digest::digest;
use shenron::json::Json;

const SANITIZED: &str = r#"{
    "report_kind": "SANITIZED_RESEARCH_OUTPUT",
    "metrics": {"earliest_timestamp": "2026-01-01T00:00:00Z"},
    "cve_findings": [{
        "cve": "CVE-2026-0001",
        "request_count": 12,
        "detectability": "HIGH",
        "distinctive_path_matches": 10,
        "generic_path_matches": 2,
        "template_ids": ["template-a"]
    }]
}"#;

fn findings() -> Vec<String> {
    vec![
        "{\"source_ip\":\"198.51.100.99\",\"uri_path\":\"/private-secret\",\"host\":\"private.example.test\",\"headers\":[{\"name\":\"Authorization\",\"value\":\"secret-token\"}]}".to_owned(),
    ]
}

fn run(format: CtiExportFormat, observables: bool) -> Json {
    export_run(SANITIZED, None, &findings(), format, observables, None).unwrap()
}

fn text<'a>(value: &'a Json, name: &str) -> &'a str {
    value.get(name).unwrap().as_text().unwrap()
}

fn marked(bundle: &Json, level: &str, name: &str) -> bool {
    bundle
        .get("objects")
        .unwrap()
        .as_list()
        .unwrap()
        .iter()
        .any(|item| {
            text(item, "type") == "marking-definition"
                && item.get2("definition", "tlp").unwrap().as_text().unwrap() == level
                && text(item, "name") == name
        })
}

#[test]
fn stix_defaults_to_sanitized_aggregates_with_marking_and_valid_ids() {
    let text_of = run(CtiExportFormat::Stix, false).compact();
    for private in [
        "198.51.100.99",
        "/private-secret",
        "private.example.test",
        "secret-token",
    ] {
        assert!(!text_of.contains(private));
    }
    let bundle = Json::parse(&text_of).unwrap();
    assert_eq!(text(&bundle, "type"), "bundle");
    assert!(valid_stix_id("bundle", text(&bundle, "id")));
    let objects = bundle.get("objects").unwrap().as_list().unwrap();
    assert!(marked(&bundle, "amber", "TLP:AMBER"));
    assert!(objects
        .iter()
        .all(|item| valid_stix_id(text(item, "type"), text(item, "id"))));
    assert!(objects.iter().all(|item| text(item, "type") != "threat-actor"));
    assert!(objects.iter().all(|item| text(item, "type") != "campaign"));
}

#[test]
fn private_observables_require_opt_in_and_default_to_red_marking() {
    let bundle = run(CtiExportFormat::Stix, true);
    let text_of = bundle.compact();
    assert!(text_of.contains("198.51.100.99"));
    assert!(text_of.contains("/private-secret"));
    assert!(!text_of.contains("secret-token"));
    assert!(marked(&bundle, "red", "TLP:RED"));
}

#[test]
fn misp_export_is_file_only_and_sanitized_by_default() {
    let text_of = run(CtiExportFormat::Misp, false).compact();
    assert!(text_of.contains("CVE-2026-0001"));
    assert!(text_of.contains("template-a"));
    assert!(!text_of.contains("198.51.100.99"));
    assert!(!text_of.contains("/private-secret"));
}

fn valid_stix_id(object_type: &str, id: &str) -> bool {
    let Some(uuid) = id.strip_prefix(&format!("{object_type}--")) else {
        return false;
    };
    let bytes = uuid.as_bytes();
    uuid.len() == 36
        && [8, 13, 18, 23]
            .into_iter()
            .all(|index| bytes.get(index) == Some(&b'-'))
        && bytes.get(14) == Some(&b'5')
        && bytes
            .get(19)
            .is_some_and(|value| matches!(value, b'8' | b'9' | b'a' | b'b'))
        && bytes
            .iter()
            .enumerate()
            .all(|(index, value)| [8, 13, 18, 23].contains(&index) || value.is_ascii_hexdigit())
}

#[test]
fn identifiers_come_from_the_digest_of_the_key() {
    assert_eq!(bare_uuid("k"), "8254c329-a928-50f6-9539-dd376f4816ee");
    assert_eq!(
        stix_id("identity", "shenron"),
        "identity--54cbb69d-0a50-5a03-b359-4e543913d5b7"
    );
}

#[test]
fn a_chosen_marking_is_kept() {
    assert_eq!(effective_tlp(None, false), TlpLevel::Amber);
    assert_eq!(effective_tlp(None, true), TlpLevel::Red);
    assert_eq!(effective_tlp(Some(TlpLevel::Clear), true), TlpLevel::Clear);
    let bundle = export_run(
        SANITIZED,
        None,
        &findings(),
        CtiExportFormat::Stix,
        false,
        Some(TlpLevel::Green),
    )
    .unwrap();
    assert!(marked(&bundle, "green", "TLP:GREEN"));
    assert_eq!(TlpLevel::Clear.label(), "clear");
    assert_eq!(TlpLevel::Red.marking_name(), "TLP:RED");
}

#[test]
fn observables_are_counted_with_what_cannot_be_used() {
    let lines = vec![
        "not json".to_owned(),
        "{\"source_ip\":\"elsewhere\",\"uri_path\":\"/a\"}".to_owned(),
        "{\"source_ip\":\"2001:0db8::1\",\"uri_path\":\"/a\"}".to_owned(),
    ];
    let observables = PrivateObservables::load(&lines);
    assert_eq!(observables.malformed_findings, 1);
    assert_eq!(observables.invalid_source_ips, 1);
    assert_eq!(observables.uri_paths.len(), 1);
    assert!(observables.uri_paths.contains("/a"));
    assert_eq!(observables.source_ips.len(), 1);
}

#[test]
fn nothing_is_exported_without_a_report() {
    for report in ["", "[", "{\"report_kind\":\"PRIVATE\""] {
        assert!(
            export_run(report, None, &vec![], CtiExportFormat::Stix, false, None).is_none()
        );
    }
}

#[test]
fn the_time_of_an_artifact_is_the_first_recorded() {
    let sanitized = Json::parse(SANITIZED).unwrap();
    assert_eq!(artifact_time(&sanitized, None), "2026-01-01T00:00:00Z");
    assert_eq!(artifact_date("2026-01-01T00:00:00Z"), "2026-01-01");
}

const RICH: &str = r#"{"report_kind":"SANITIZED_RESEARCH_OUTPUT","metrics":{"earliest_timestamp":"2026-01-01T00:00:00Z","request_specific_matches":5,"response_unverified_matches":"x"},"cve_findings":[{"cve":"CVE-2026-0002","request_count":7,"template_ids":["t2","t1",3]},{"no":"cve"},{"cve":"CVE-2026-0001","request_count":12,"detectability":"HIGH","distinctive_path_matches":10,"generic_path_matches":2,"template_ids":["template-a"]}]}"#;

const MANIFEST: &str = r#"{"generated_at":"2026-02-03T04:05:06Z","telemetry_profile":"aws-waf","nuclei_revision":"abc"}"#;

fn fingerprint(format: CtiExportFormat, observables: bool) -> String {
    let findings: Vec<String> = [
        "{\"source_ip\":\"198.51.100.99\",\"uri_path\":\"/b\"}",
        "{\"source_ip\":\"2001:db8::1\",\"uri_path\":\"/a\"}",
        "{\"source_ip\":\"198.51.100.99\",\"uri_path\":\"/b\"}",
        "{\"source_ip\":\"nowhere\"}",
        "broken",
    ]
    .iter()
    .map(|line| (*line).to_owned())
    .collect();
    let document =
        export_run(RICH, Some(MANIFEST), &findings, format, observables, None).unwrap();
    // Reading the text back puts the fields of every object in order.
    let ordered = Json::parse(&document.compact()).unwrap().compact();
    digest(ordered.as_bytes())
}

#[test]
fn whole_documents_are_as_recorded() {
    assert_eq!(
        fingerprint(CtiExportFormat::Stix, false),
        "cf7ed9387486e7dfbbc06b4b9d29d49ccac40ed6af4173dd8825c9c8d1d12293"
    );
    assert_eq!(
        fingerprint(CtiExportFormat::Stix, true),
        "71be3ac196cf55f261a50b393b8f8d605548cf0705125fb62ba0e76ecbf92bd1"
    );
    assert_eq!(
        fingerprint(CtiExportFormat::Misp, false),
        "94c9c22ea26fa5977592b7c2d4c53232d428e178134c5d06c9199897b3ead8a3"
    );
    assert_eq!(
        fingerprint(CtiExportFormat::Misp, true),
        "d16ed20f9f121b3732aa62d89aa0f72ac6676ca276c00a358ee164d35c1255d2"
    );
}

#[test]
fn every_object_of_a_bundle_is_identified() {
    let bundle = run(CtiExportFormat::Stix, true);
    assert!(valid_stix_id("bundle", text(&bundle, "id")));
    let objects = bundle.get("objects").unwrap().as_list().unwrap();
    let kinds: Vec<&str> = objects.iter().map(|item| text(item, "type")).collect();
    assert_eq!(
        kinds,
        [
            "identity",
            "ipv4-addr",
            "marking-definition",
            "note",
            "report",
            "vulnerability",
            "x-shenron-uri-path"
        ]
    );
    for item in objects {
        assert!(valid_stix_id(text(item, "type"), text(item, "id")));
    }
}
