use shenron::finding::Detectability;
use shenron::kev::{
    best_state, coverage, coverage_lines, normalize_cve, state_label, web_relevance, ConversionStatus, KevCatalog,
    KevEntry, KevNucleiState, KevNucleiTemplate, NucleiCoverageInput, NucleiTemplateInput,
    WebRelevance,
};

fn entry(cve: &str, description: &str) -> KevEntry {
    KevEntry {
        cve_id: cve.to_owned(),
        vendor_project: "vendor".to_owned(),
        product: "product".to_owned(),
        vulnerability_name: "name".to_owned(),
        date_added: "2026-01-01".to_owned(),
        known_ransomware_campaign_use: "Unknown".to_owned(),
        required_action: "patch".to_owned(),
        due_date: "2026-02-01".to_owned(),
        short_description: description.to_owned(),
    }
}

fn template(id: &str, protocol: &str) -> KevNucleiTemplate {
    KevNucleiTemplate {
        template_id: id.to_owned(),
        template_path: format!("{id}.yaml"),
        protocol: protocol.to_owned(),
        detectability: Detectability::Low,
        conversion_status: ConversionStatus::Other("unsupported".to_owned()),
        validation_status: "not_run".to_owned(),
    }
}

#[test]
fn the_best_state_is_the_furthest_reached() {
    let state = |list: Vec<KevNucleiTemplate>| state_label(best_state(&list));
    let mut observable = template("t", "http");
    observable.detectability = Detectability::Medium;
    let mut converted = observable.clone();
    converted.conversion_status = ConversionStatus::Supported;
    let mut validated = converted.clone();
    validated.validation_status = "passed".to_owned();
    assert_eq!(state(vec![]), "NO_NUCLEI_TEMPLATE");
    assert_eq!(state(vec![template("t", "dns")]), "NON_HTTP_NUCLEI_TEMPLATE");
    assert_eq!(state(vec![template("t", "http")]), "HTTP_TEMPLATE_NOT_OBSERVABLE");
    assert_eq!(
        state(vec![template("u", "dns"), observable]),
        "HTTP_TEMPLATE_OBSERVABLE_UNSUPPORTED"
    );
    assert_eq!(state(vec![converted]), "HTTP_TEMPLATE_CONVERTED");
    assert_eq!(state(vec![validated]), "HTTP_TEMPLATE_VALIDATED");
}

#[test]
fn relevance_needs_evidence() {
    let relevance = |description: &str, list: Vec<KevNucleiTemplate>| {
        let (relevance, reasons) = web_relevance(&entry("CVE", description), &list);
        assert_eq!(reasons.len(), 1);
        (relevance, reasons[0].clone())
    };
    assert_eq!(
        relevance("local flaw", vec![template("t", "http")]),
        (WebRelevance::WebRelevant, "nuclei_http_template".to_owned())
    );
    assert_eq!(
        relevance("A flaw in the Web Interface", vec![]),
        (
            WebRelevance::WebRelevant,
            "cisa_description_explicit_web_transport".to_owned()
        )
    );
    assert_eq!(
        relevance("local flaw", vec![template("t", "dns")]),
        (
            WebRelevance::NotWebRelevant,
            "only_non_http_nuclei_templates".to_owned()
        )
    );
    assert_eq!(
        relevance("local flaw", vec![]),
        (WebRelevance::Unknown, "insufficient_evidence".to_owned())
    );
}

#[test]
fn coverage_joins_the_catalog_and_the_templates() {
    assert_eq!(normalize_cve(" cve-2026-0001\n"), "CVE-2026-0001");
    let mut supported = template("first", "http");
    supported.conversion_status = ConversionStatus::Supported;
    let catalog = KevCatalog {
        catalog_version: Some("1".to_owned()),
        date_released: None,
        vulnerabilities: vec![
            entry("CVE-2026-0003", "local flaw"),
            entry("cve-2026-0001", "local flaw"),
            entry("CVE-2026-0002", "over HTTPS"),
            entry("CVE-2026-0001", "local flaw"),
        ],
    };
    let nuclei = NucleiCoverageInput {
        nuclei_revision: "rev".to_owned(),
        templates: vec![
            NucleiTemplateInput { cves: vec!["CVE-2026-0001 ".to_owned()], template: supported },
            NucleiTemplateInput {
                cves: vec!["CVE-2026-0009".to_owned(), "CVE-2026-0001".to_owned()],
                template: template("second", "dns"),
            },
        ],
    };
    let report = coverage(catalog, nuclei);
    let cves: Vec<&str> = report.entries.iter().map(|entry| entry.cve.as_str()).collect();
    assert_eq!(
        cves,
        ["CVE-2026-0001", "CVE-2026-0001", "CVE-2026-0002", "CVE-2026-0003"]
    );
    // A repeated entry of the catalog finds its templates taken.
    assert_eq!(report.entries[0].nuclei_templates.len(), 2);
    assert_eq!(report.entries[0].nuclei_templates[0].template_id, "first");
    assert!(report.entries[0].convertible && !report.entries[0].validated);
    assert_eq!(
        report.entries[0].best_nuclei_state,
        KevNucleiState::HttpTemplateConverted
    );
    assert!(report.entries[1].nuclei_templates.is_empty());
    let metrics = report.metrics;
    assert_eq!(metrics.total_kevs, 4);
    assert_eq!(metrics.web_relevant, 2);
    assert_eq!(metrics.not_web_relevant, 0);
    assert_eq!(metrics.unknown_web_relevance, 2);
    assert_eq!(metrics.web_relevant_with_nuclei_template, 1);
    assert_eq!(metrics.web_relevant_with_http_nuclei_template, 1);
    assert_eq!(metrics.web_relevant_observable, 0);
    assert_eq!(metrics.web_relevant_convertible, 1);
    assert_eq!(metrics.web_relevant_validated, 0);
    assert_eq!(metrics.web_relevant_no_nuclei_template, 1);
    assert_eq!(report.state_counts.get("NO_NUCLEI_TEMPLATE"), Some(&3));
    assert_eq!(report.state_counts.get("HTTP_TEMPLATE_CONVERTED"), Some(&1));
    assert_eq!(report.nuclei_revision, "rev");
    let lines = coverage_lines(&report);
    assert_eq!(lines.len(), 17);
    assert_eq!(lines[0], "CISA KEV catalog:           1");
    assert_eq!(lines[1], "Catalog released:            unknown");
    assert_eq!(lines[4], "KEVs:");
    assert_eq!(lines[5], "Total:                       4");
    assert_eq!(lines[16], "No Nuclei template:          1");
    assert_eq!(report.catalog_version.as_deref(), Some("1"));
}
