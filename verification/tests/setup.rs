use shenron::finding::RequestSpecificity;
use shenron::reputation::{lists_to_update, record_update, FetchedList, PublicList};
use shenron::setup::{
    default_branch_target, matcher_records, setup_plan, setup_summary, MatcherRecord, SetupPlan,
    StepOutcome,
};

#[test]
fn setup_skip_flags_select_the_expected_preparation_inputs() {
    assert_eq!(
        setup_plan(false, false, false),
        SetupPlan {
            include_nuclei: true,
            include_reputation: true,
            include_asn: true,
        }
    );
    assert_eq!(
        setup_plan(true, false, true),
        SetupPlan {
            include_nuclei: false,
            include_reputation: true,
            include_asn: false,
        }
    );
    assert_eq!(
        setup_plan(true, true, true),
        SetupPlan {
            include_nuclei: false,
            include_reputation: false,
            include_asn: false,
        }
    );
}

#[test]
fn a_summary_lists_what_was_done_before_what_failed() {
    let plan = setup_plan(false, false, false);
    let failed = StepOutcome::Failed("no git".to_owned());
    let summary = setup_summary(plan, &failed, &StepOutcome::Done);
    assert_eq!(summary.lines[0], "Setup summary:");
    assert_eq!(summary.lines[1], "  completed: reputation/ASN inputs");
    assert_eq!(
        summary.lines[2],
        "  failed: Nuclei templates and frozen report: no git"
    );
    assert_eq!(summary.lines.len(), 5);
    assert_eq!(
        summary.failure.as_deref(),
        Some("setup completed with failures: no git")
    );
    let done = setup_summary(plan, &StepOutcome::Done, &StepOutcome::Done);
    assert!(done.failure.is_none());
    assert!(done.lines.last().unwrap().starts_with("Next: "));
    let none = setup_plan(true, true, true);
    let skipped = setup_summary(none, &StepOutcome::NotTaken, &StepOutcome::NotTaken);
    assert_eq!(skipped.lines.len(), 1);
    assert!(skipped.failure.is_none());
}

#[test]
fn the_default_branch_is_read_from_the_remote_head() {
    assert_eq!(
        default_branch_target("abc\trefs/heads/x\r\nref: refs/heads/main\tHEAD\r\nabc\tHEAD").as_deref(),
        Some("origin/main")
    );
    assert_eq!(default_branch_target("ref: refs/heads/main"), None);
    assert_eq!(default_branch_target(""), None);
}

fn matcher(template: &str, path: &str, query: Option<&str>, cves: &[&str]) -> MatcherRecord {
    MatcherRecord {
        template_id: template.to_owned(),
        cves: cves.iter().map(|cve| (*cve).to_owned()).collect(),
        method: "GET".to_owned(),
        path: path.to_owned(),
        query: query.map(str::to_owned),
        fragment: None,
        headers: vec![("X-A".to_owned(), "1".to_owned())],
        request_specificity: RequestSpecificity::RequestSpecific,
        path_distinctiveness: "distinctive".to_owned(),
    }
}

#[test]
fn matchers_are_listed_in_order_with_their_cves_in_order() {
    let list = matcher_records(vec![
        matcher("b", "/z", None, &["CVE-2", "CVE-1"]),
        matcher("a", "/z", Some("q"), &[]),
        matcher("a", "/z", None, &[]),
        matcher("a", "/b", None, &[]),
    ]);
    let keys: Vec<(&str, &str, Option<&str>)> = list
        .iter()
        .map(|m| (m.template_id.as_str(), m.path.as_str(), m.query.as_deref()))
        .collect();
    assert_eq!(
        keys,
        [
            ("a", "/b", None),
            ("a", "/z", None),
            ("a", "/z", Some("q")),
            ("b", "/z", None)
        ]
    );
    assert_eq!(list[3].cves, ["CVE-1", "CVE-2"]);
    assert_eq!(
        list[2].line(),
        "a  GET /z?q  [1 headers]  request-specific  distinctive"
    );
}

#[test]
fn an_update_fetches_what_is_selected() {
    assert_eq!(
        lists_to_update(false, false).unwrap_err().message(),
        "at least one of --reputation or --asn must be true"
    );
    let names = |reputation: bool, asn: bool| -> Vec<&'static str> {
        lists_to_update(reputation, asn)
            .unwrap()
            .into_iter()
            .map(|list| list.name())
            .collect()
    };
    assert_eq!(
        names(true, true),
        ["spamhaus-drop", "firehol-level1", "cins-army", "blocklist.de", "iptoasn-v4"]
    );
    assert_eq!(names(false, true), ["iptoasn-v4"]);
    assert_eq!(PublicList::CinsArmy.download_name(), "cins.txt");
}

#[test]
fn an_update_is_recorded_with_its_digests() {
    let fetched = |list: PublicList, records: usize| FetchedList {
        list,
        url: format!("https://example.test/{}", list.name()),
        records,
    };
    let lists = vec![
        fetched(PublicList::SpamhausDrop, 2),
        fetched(PublicList::CinsArmy, 3),
        fetched(PublicList::IpToAsn, 7),
    ];
    let update = record_update(
        &lists,
        Some(("reputation.jsonl", b"abc")),
        Some(("asn-ranges.tsv", b"")),
        "2026-01-01T00:00:00Z".to_owned(),
    )
    .unwrap();
    assert_eq!(update.report_kind, "PUBLIC_REPUTATION_UPDATE");
    assert_eq!(update.sources[1].name, "cins-army");
    assert_eq!(update.sources[1].url, "https://example.test/cins-army");
    assert_eq!(update.outputs[0].records, 5);
    assert_eq!(
        update.outputs[0].sha256,
        "ba7816bf8f01cfea414140de5dae2223b00361a396177a9cb410ff61f20015ad"
    );
    assert_eq!(update.outputs[1].path, "asn-ranges.tsv");
    assert_eq!(update.outputs[1].records, 7);
    let many = vec![
        fetched(PublicList::SpamhausDrop, usize::MAX),
        fetched(PublicList::CinsArmy, 1),
    ];
    assert!(record_update(&many, None, None, String::new()).is_none());
}
