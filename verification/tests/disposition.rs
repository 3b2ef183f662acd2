use shenron::disposition::{
    compare_parts, AnalystDisposition, DispositionEntry, DispositionKey, DispositionReview,
    DispositionStore, RecordDispositionResult,
};
use shenron::event::Timestamp;
use shenron::text::TextOrder;

const AT: &str = "2026-08-24T00:00:00Z";

/// 2026-09-01T00:00:00Z
fn september() -> Timestamp {
    Timestamp { seconds: 1_788_220_800, nanos: 0 }
}

/// The log of a store: one entry for each line, in the order of the lines.
fn load(log: &[DispositionEntry]) -> DispositionStore {
    DispositionStore::from_entries(log.to_vec(), b"{}\n")
}

fn record(
    log: &mut Vec<DispositionEntry>,
    key: DispositionKey,
    disposition: AnalystDisposition,
    comment: Option<&str>,
    review: Option<DispositionReview>,
) -> RecordDispositionResult {
    let (result, entry) = load(log).record_disposition_with_review(
        key,
        disposition,
        comment.map(str::to_owned),
        review,
        AT.to_owned(),
    );
    log.extend(entry);
    result
}

#[test]
fn scope_is_exact_and_deadlines_require_explicit_time_without_reclassification() {
    let mut log = Vec::new();
    let key = DispositionKey::new("nuclei", "template", "GET", "/private", None);
    record(&mut log, key.clone(), AnalystDisposition::Reviewed, None, None);
    let mut scoped = key.clone();
    scoped.corpus_scope = Some("site-a".into());
    let review = DispositionReview {
        reviewer: Some("analyst".into()),
        evidence_run: Some("private/run".into()),
        nuclei_revision: Some("frozen".into()),
        review_after: Some(september()),
    };
    record(
        &mut log,
        scoped.clone(),
        AnalystDisposition::Expected,
        None,
        Some(review.clone()),
    );
    assert!(
        record(
            &mut log,
            scoped,
            AnalystDisposition::Expected,
            None,
            Some(review)
        )
        .already_recorded
    );
    assert_eq!(log.len(), 2);
    let store = load(&log);
    assert_eq!(store.get(&key), Some(AnalystDisposition::Reviewed));
    let a = store.clone().select(Some("site-a".into()), None);
    assert_eq!(a.get(&key), Some(AnalystDisposition::Expected));
    assert_eq!(a.review_summary().entries_due_for_review, None);
    assert_eq!(a.review_summary().entries_excluded_by_scope, 1);
    let due = a.select(Some("site-a".into()), Some(september()));
    assert_eq!(due.review_summary().entries_due_for_review, Some(1));
    assert_eq!(due.get(&key), Some(AnalystDisposition::Expected));
    let other = store.select(Some("site-b".into()), None);
    assert_eq!(other.get(&key), None);
    assert_eq!(other.review_summary().entries_excluded_by_scope, 2);
}

#[test]
fn repeated_identical_record_is_idempotent_and_latest_changed_opinion_wins() {
    let mut log = Vec::new();
    let key = DispositionKey::new("nuclei", "template", "get", "/robots.txt", None);
    let comment = Some("reviewed crawler traffic");
    let first = record(&mut log, key.clone(), AnalystDisposition::Expected, comment, None);
    assert!(!first.already_recorded);
    let duplicate = record(&mut log, key.clone(), AnalystDisposition::Expected, comment, None);
    assert!(duplicate.already_recorded);
    assert_eq!(log.len(), 1);

    record(&mut log, key.clone(), AnalystDisposition::NeedsReview, None, None);
    let store = load(&log);
    assert_eq!(store.len(), 1);
    assert_eq!(store.get(&key), Some(AnalystDisposition::NeedsReview));
    assert_eq!(log.len(), 2);
}

#[test]
fn a_recorded_entry_holds_what_was_given() {
    let store = DispositionStore::default();
    assert!(store.is_empty());
    let key = DispositionKey::new("nuclei", "template", "get", "/a", Some("q=1"));
    assert_eq!(key.method, "GET");
    assert_eq!(key.corpus_scope, None);
    let (result, entry) = store.record_disposition(
        key,
        AnalystDisposition::Expected,
        Some("seen".to_owned()),
        AT.to_owned(),
    );
    assert_eq!(
        result,
        RecordDispositionResult { already_recorded: false, effective_entries: 1 }
    );
    let entry = entry.unwrap();
    assert_eq!(entry.recorded_at, AT);
    assert_eq!(entry.comment.as_deref(), Some("seen"));
    assert_eq!(entry.key.uri_query.as_deref(), Some("q=1"));
    assert!(entry.review.is_none());
    assert!(!entry.safety_note.is_empty());
}

#[test]
fn entries_come_in_the_order_of_their_keys() {
    let mut log = Vec::new();
    for path in ["/b", "/a", "/c", "/a"] {
        let key = DispositionKey::new("nuclei", "template", "GET", path, None);
        record(&mut log, key, AnalystDisposition::Expected, Some(path), None);
    }
    let store = load(&log);
    let paths: Vec<&str> = store
        .selected_entries()
        .into_iter()
        .map(|entry| entry.key.uri_path.as_str())
        .collect();
    assert_eq!(paths, ["/a", "/b", "/c"]);
    assert_eq!(compare_parts(None, Some("")), TextOrder::Before);
    assert_eq!(compare_parts(Some("a"), Some("a")), TextOrder::Same);
    assert_eq!(compare_parts(Some("b"), Some("a")), TextOrder::After);
}

#[test]
fn a_deadline_is_due_from_its_own_instant() {
    let mut log = Vec::new();
    let key = DispositionKey::new("nuclei", "template", "GET", "/a", None);
    let review = DispositionReview {
        reviewer: None,
        evidence_run: None,
        nuclei_revision: None,
        review_after: Some(september()),
    };
    record(&mut log, key.clone(), AnalystDisposition::Expected, None, Some(review));
    let store = load(&log);
    assert_eq!(store.review_due(&key), None);
    assert!(!store.review_evaluation_requested());
    assert!(DispositionStore::default().review_context().is_none());
    assert!(store.review_context().is_some());
    let second_before = Timestamp { seconds: september().seconds - 1, nanos: 999_999_999 };
    let early = store.clone().select(None, Some(second_before));
    assert_eq!(early.review_due(&key), Some(false));
    let late = store.select(None, Some(september()));
    assert_eq!(late.review_due(&key), Some(true));
    assert!(late.review_evaluation_requested());
    let context = late.review_context().unwrap();
    assert_eq!(
        context.store_sha256.as_deref(),
        Some("ca3d163bab055381827226140568f3bef7eaac187cebd76878e0b63e9e442356")
    );
    assert_eq!(context.as_of, Some(september()));
    assert_eq!(
        late.review_due(&DispositionKey::new("nuclei", "other", "GET", "/a", None)),
        None
    );
}

#[test]
fn dispositions_have_labels() {
    assert_eq!(AnalystDisposition::Reviewed.label(), "reviewed");
    assert_eq!(AnalystDisposition::Expected.label(), "expected");
    assert_eq!(AnalystDisposition::NeedsReview.label(), "needs-review");
}

#[test]
fn recording_again_keeps_the_number_of_entries() {
    let mut log = Vec::new();
    let other = DispositionKey::new("nuclei", "template", "GET", "/other", None);
    record(&mut log, other, AnalystDisposition::Reviewed, None, None);
    let key = DispositionKey::new("nuclei", "template", "GET", "/a", None);
    let first = record(&mut log, key.clone(), AnalystDisposition::Expected, None, None);
    let again = record(&mut log, key.clone(), AnalystDisposition::Expected, Some(""), None);
    assert_eq!(first.effective_entries, 2);
    assert!(again.already_recorded);
    assert_eq!(again.effective_entries, first.effective_entries);
    assert_eq!(log.len(), 2);
    let changed = record(&mut log, key, AnalystDisposition::Reviewed, None, None);
    assert_eq!(changed.effective_entries, 2);
}
