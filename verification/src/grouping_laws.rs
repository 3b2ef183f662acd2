//! What groups of sources, validated cases and synthetic corpora are made of.

use crate::disposition::{selected, DispositionEntry};
use crate::focus_groups::{
    asn_grouped, asn_numbers, group_requests, grouped, groups_reported, is_asn_summary,
    prefix_names, unresolved_count, unresolved_total, FocusEntry, GroupModel, ResolvedAsn,
};
use crate::lab::{EventModel, GeneratorConfig, Profile, SyntheticFormat, TruthClass, TruthRecord};
use crate::lab_corpus::{
    first_header, is_corpus, line_of, lines_of, target_of, GenerateResult,
};
use crate::lab_validation::{
    counts_are_bounded, failure_models, found_rules, is_validation, total_counts, wanted_rules,
    ValidationReport,
};
use crate::ordered::{ordered_texts, ordered_texts_lists_the_members, TextSet};
use crate::status::StatusClassCounts;
use crate::text::{lower, opt_text, text_before, texts};
use crate::volume_report::{PrivateFocusAsnSummary, PrivateFocusPrefixGroup};
use vstd::prelude::*;

verus! {

/// One more source changes the group of its key alone: the group has the requests and responses
/// of the source added, and has the source. A source without a key changes no group.
pub proof fn a_source_joins_the_group_of_its_key(
    entries: Seq<FocusEntry>,
    keys: Seq<Option<Seq<char>>>,
    e: FocusEntry,
    key: Seq<char>,
    other: Seq<char>,
)
    requires
        entries.len() == keys.len(),
    ensures
        grouped(Seq::empty(), Seq::empty()).dom() == Set::<Seq<char>>::empty(),
        grouped(entries.push(e), keys.push(None)) == grouped(entries, keys),
        ({
            let before = grouped(entries, keys);
            let after = grouped(entries.push(e), keys.push(Some(key)));
            let (new, old_requests) = (after[key], if before.dom().contains(key) {
                before[key].requests
            } else {
                0
            });
            &&& after.dom() == before.dom().insert(key)
            &&& other != key ==> after[other] == before[other]
            &&& new.requests == old_requests + e.requests
            &&& new.sources == (if before.dom().contains(key) {
                before[key].sources
            } else {
                Set::empty()
            }).insert(e.source)
            &&& new.classes == (if before.dom().contains(key) {
                before[key].classes
            } else {
                StatusClassCounts::none()
            }).sum(e.classes)
            &&& e.codes is None ==> new.codes == (if before.dom().contains(key) {
                before[key].codes
            } else {
                None
            })
            &&& e.codes is Some ==> new.codes is Some
        }),
{
    assert(entries.push(e).drop_last() =~= entries);
    assert(keys.push(None).drop_last() =~= keys);
    assert(keys.push(Some(key)).drop_last() =~= keys);
}

/// Counts by class are added class by class, and a group that starts with nothing adds nothing.
pub proof fn class_counts_are_added(a: StatusClassCounts, b: StatusClassCounts)
    ensures
        a.informational + b.informational <= u64::MAX ==> a.sum(b).informational == a.informational
            + b.informational,
        a.success + b.success <= u64::MAX ==> a.sum(b).success == a.success + b.success,
        a.redirection + b.redirection <= u64::MAX ==> a.sum(b).redirection == a.redirection
            + b.redirection,
        a.client_error + b.client_error <= u64::MAX ==> a.sum(b).client_error == a.client_error
            + b.client_error,
        a.client_closed_request_499 + b.client_closed_request_499 <= u64::MAX ==> a.sum(
            b,
        ).client_closed_request_499 == a.client_closed_request_499 + b.client_closed_request_499,
        a.server_error + b.server_error <= u64::MAX ==> a.sum(b).server_error == a.server_error
            + b.server_error,
        a.other + b.other <= u64::MAX ==> a.sum(b).other == a.other + b.other,
        a.unavailable + b.unavailable <= u64::MAX ==> a.sum(b).unavailable == a.unavailable
            + b.unavailable,
        StatusClassCounts::none().sum(b) == b,
{
}

/// A reported group has the requests, the sources and the responses of the sources that joined
/// it, and its share is of all requests.
pub proof fn reported_groups_are_those_formed(
    r: Seq<PrivateFocusPrefixGroup>,
    groups: Map<Seq<char>, GroupModel>,
    total: u64,
    i: int,
    j: int,
)
    requires
        groups_reported(r, groups, total),
        0 <= i < j < r.len(),
    ensures
        groups.dom().contains(r[i].network_prefix@),
        r[i].network_prefix@ != r[j].network_prefix@,
        r[i].requests == groups[r[i].network_prefix@].requests,
        r[i].distinct_source_ips == groups[r[i].network_prefix@].sources.len(),
        r[i].response_status_classes == groups[r[i].network_prefix@].classes,
        r[i].requests >= r[j].requests,
        r[i].requests == r[j].requests ==> text_before(r[i].network_prefix@, r[j].network_prefix@),
        total > 0 ==> r[i].request_share.numerator == r[i].requests
            && r[i].request_share.denominator == total,
{
    let names = prefix_names(r);
    assert(names[i] == r[i].network_prefix@ && names[j] == r[j].network_prefix@);
    assert(names.to_set().contains(names[i]));
    assert(group_requests(groups)[names[i]] == groups[names[i]].requests);
    assert(names.to_set().contains(names[j]));
    assert(group_requests(groups)[names[j]] == groups[names[j]].requests);
}

/// One more source that was resolved to a number changes the group of that number alone. The
/// label of a group is the first of its labels in the order on texts. A source that was not
/// resolved changes no group, and it and its requests are counted as unresolved.
pub proof fn a_source_joins_the_group_of_its_number(
    entries: Seq<FocusEntry>,
    resolved: Seq<Option<ResolvedAsn>>,
    e: FocusEntry,
    found: ResolvedAsn,
    other: i64,
)
    requires
        entries.len() == resolved.len(),
    ensures
        asn_grouped(Seq::empty(), Seq::empty()).dom() == Set::<i64>::empty(),
        unresolved_count(Seq::empty()) == 0,
        unresolved_total(Seq::empty(), Seq::empty()) == 0,
        asn_grouped(entries.push(e), resolved.push(None)) == asn_grouped(entries, resolved),
        unresolved_count(resolved.push(None)) == unresolved_count(resolved) + 1,
        unresolved_count(resolved.push(Some(found))) == unresolved_count(resolved),
        unresolved_total(entries.push(e), resolved.push(None)) == unresolved_total(
            entries,
            resolved,
        ) + e.requests,
        unresolved_total(entries.push(e), resolved.push(Some(found))) == unresolved_total(
            entries,
            resolved,
        ),
        ({
            let before = asn_grouped(entries, resolved);
            let after = asn_grouped(entries.push(e), resolved.push(Some(found)));
            let key = found.asn as i64;
            let known = before.dom().contains(key);
            &&& after.dom() == before.dom().insert(key)
            &&& other != key ==> after[other] == before[other]
            &&& known ==> after[key].requests == before[key].requests + e.requests
            &&& !known ==> after[key].requests == e.requests
            &&& known ==> after[key].sources == before[key].sources.insert(e.source)
            &&& !known ==> after[key].sources == Set::<Seq<char>>::empty().insert(e.source)
            &&& !known ==> after[key].organization == found.org@
            &&& known ==> !text_before(found.org@, after[key].organization) || after[key].organization
                == found.org@
            &&& known ==> after[key].organization == found.org@ || after[key].organization
                == before[key].organization
            &&& known && text_before(found.org@, before[key].organization)
                ==> after[key].organization == found.org@
            &&& known && !text_before(found.org@, before[key].organization)
                ==> after[key].organization == before[key].organization
        }),
{
    assert(entries.push(e).drop_last() =~= entries);
    assert(resolved.push(None).drop_last() =~= resolved);
    assert(resolved.push(Some(found)).drop_last() =~= resolved);
}

/// A reported number has the requests, the sources and the label of its group.
pub proof fn reported_numbers_are_those_formed(
    r: PrivateFocusAsnSummary,
    entries: Seq<FocusEntry>,
    resolved: Seq<Option<ResolvedAsn>>,
    total: u64,
    i: int,
    j: int,
)
    requires
        is_asn_summary(r, entries, resolved, total),
        0 <= i < j < r.groups@.len(),
    ensures
        asn_grouped(entries, resolved).dom().contains(r.groups@[i].asn as i64),
        r.groups@[i].asn != r.groups@[j].asn,
        r.groups@[i].requests == asn_grouped(entries, resolved)[r.groups@[i].asn as i64].requests,
        r.groups@[i].distinct_source_ips == asn_grouped(
            entries,
            resolved,
        )[r.groups@[i].asn as i64].sources.len(),
        r.groups@[i].organization@ == asn_grouped(
            entries,
            resolved,
        )[r.groups@[i].asn as i64].organization,
        r.groups@[i].requests >= r.groups@[j].requests,
        r.groups@[i].requests == r.groups@[j].requests ==> r.groups@[i].asn < r.groups@[j].asn,
        r.unresolved_source_ips == unresolved_count(resolved),
        r.unresolved_requests == unresolved_total(entries, resolved),
{
    let numbers = asn_numbers(r.groups@);
    assert(numbers[i] == r.groups@[i].asn as i64 && numbers[j] == r.groups@[j].asn as i64);
    assert(numbers.to_set().contains(numbers[i]));
}

/// The entries of a scope are those whose key has it, in their order.
pub proof fn entries_are_selected_by_scope(
    list: Seq<DispositionEntry>,
    scope: Option<Seq<char>>,
    n: nat,
)
    requires
        n <= list.len(),
    ensures
        selected(list, scope, n) == list.take(n as int).filter(
            |e: DispositionEntry| opt_text(e.key.corpus_scope) == scope,
        ),
    decreases n,
{
    reveal(Seq::filter);
    if n > 0 {
        entries_are_selected_by_scope(list, scope, (n - 1) as nat);
        assert(list.take(n as int).drop_last() =~= list.take(n - 1));
    }
}

/// The cases of a list that count for something are those of their class: a malicious case is a
/// true positive where every rule that is expected to find it did, and a false negative where one
/// did not; a benign case is a false positive where a rule found it.
pub proof fn cases_are_counted_by_class_and_rules(
    ids: Seq<Seq<char>>,
    truth: Map<Seq<char>, TruthRecord>,
    actual: Map<Seq<char>, TextSet>,
)
    ensures
        ({
            let c = total_counts(ids, truth, actual);
            &&& c.malicious == ids.filter(
                |id: Seq<char>| truth[id].expected.class == TruthClass::Malicious,
            ).len()
            &&& c.benign == ids.filter(
                |id: Seq<char>| truth[id].expected.class == TruthClass::Benign,
            ).len()
            &&& c.true_positives == ids.filter(
                |id: Seq<char>|
                    truth[id].expected.class == TruthClass::Malicious && expects(truth[id])
                        && found_whole(truth[id], actual, id),
            ).len()
            &&& c.false_negatives == ids.filter(
                |id: Seq<char>|
                    truth[id].expected.class == TruthClass::Malicious && expects(truth[id])
                        && !found_whole(truth[id], actual, id),
            ).len()
            &&& c.false_positives == ids.filter(
                |id: Seq<char>|
                    truth[id].expected.class == TruthClass::Benign && found_rules(actual, id).len()
                        > 0,
            ).len()
            &&& c.true_negatives == ids.filter(
                |id: Seq<char>|
                    truth[id].expected.class == TruthClass::Benign && found_rules(actual, id).len()
                        == 0,
            ).len()
        }),
    decreases ids.len(),
{
    reveal(Seq::filter);
    if ids.len() > 0 {
        cases_are_counted_by_class_and_rules(ids.drop_last(), truth, actual);
        let id = ids.last();
        lemma_wanted(truth[id]);
        assert(found_whole(truth[id], actual, id) == wanted_rules(truth[id]).subset_of(
            found_rules(actual, id),
        )) by {
            let rules = texts(truth[id].expected.expected_rule_ids@);
            if found_whole(truth[id], actual, id) {
                assert forall|rule: Seq<char>|
                    wanted_rules(truth[id]).contains(rule) implies found_rules(actual, id).contains(
                    rule,
                ) by {
                    assert(rules.contains(rule));
                    let k = choose|k: int| 0 <= k < rules.len() && rules[k] == rule;
                    assert(truth[id].expected.expected_rule_ids@[k]@ == rule);
                }
            } else {
                let k = choose|k: int|
                    0 <= k < truth[id].expected.expected_rule_ids@.len() && !found_rules(
                        actual,
                        id,
                    ).contains((#[trigger] truth[id].expected.expected_rule_ids@[k])@);
                assert(rules[k] == truth[id].expected.expected_rule_ids@[k]@);
                assert(wanted_rules(truth[id]).contains(rules[k]));
            }
        }
    }
}

/// Whether a rule is expected to find a case.
pub open spec fn expects(record: TruthRecord) -> bool {
    record.expected.expected_rule_ids@.len() > 0
}

/// Whether every rule that is expected to find a case did.
pub open spec fn found_whole(
    record: TruthRecord,
    actual: Map<Seq<char>, TextSet>,
    id: Seq<char>,
) -> bool {
    forall|k: int|
        0 <= k < record.expected.expected_rule_ids@.len() ==> found_rules(actual, id).contains(
            (#[trigger] record.expected.expected_rule_ids@[k])@,
        )
}

proof fn lemma_wanted(record: TruthRecord)
    ensures
        expects(record) == (wanted_rules(record).len() > 0),
{
    let rules = texts(record.expected.expected_rule_ids@);
    rules.lemma_cardinality_of_set();
    if expects(record) {
        assert(rules.to_set().contains(rules[0]));
        if rules.to_set().len() == 0 {
            rules.to_set().lemma_len0_is_empty();
        }
    } else {
        assert(rules.to_set() =~= Set::empty());
    }
}

/// Recall is the part of the cases to be found that was found, precision the part of the cases
/// found that was to be found, and the false positive rate the part of the benign cases that was
/// found. There is none of nothing. A report passes where it has no failure.
pub proof fn shares_are_of_the_counts(
    r: ValidationReport,
    truth: Map<Seq<char>, TruthRecord>,
    actual: Map<Seq<char>, TextSet>,
    errors: usize,
    expected: usize,
)
    requires
        is_validation(r, truth, actual, errors, expected),
        truth.dom().finite(),
    ensures
        r.recall is None <==> r.metrics.true_positives + r.metrics.false_negatives == 0,
        r.recall is Some ==> r.recall.unwrap().numerator == r.metrics.true_positives
            && r.recall.unwrap().denominator == r.metrics.true_positives
            + r.metrics.false_negatives,
        r.precision is None <==> r.metrics.true_positives + r.metrics.false_positives == 0,
        r.precision is Some ==> r.precision.unwrap().numerator == r.metrics.true_positives
            && r.precision.unwrap().denominator == r.metrics.true_positives
            + r.metrics.false_positives,
        r.false_positive_rate is None <==> r.metrics.false_positives + r.metrics.true_negatives
            == 0,
        r.false_positive_rate is Some ==> r.false_positive_rate.unwrap().numerator
            == r.metrics.false_positives && r.false_positive_rate.unwrap().denominator
            == r.metrics.false_positives + r.metrics.true_negatives,
        r.failures@.len() == 0 ==> r.status@ == "PASS"@,
        r.failures@.len() > 0 ==> r.status@ == "FAIL"@,
        r.metrics.events == truth.dom().len(),
        r.metrics.parser_errors == errors,
        r.metrics.detected_expected + r.metrics.missed == r.metrics.expected_detections,
        errors != expected ==> r.failures@.len() > 0,
{
    let ids = ordered_texts(truth.dom());
    ordered_texts_lists_the_members(truth.dom());
    counts_are_bounded(ids, truth, actual);
    assert(failure_models(r.failures@).len() == r.failures@.len());
}

/// A corpus has a line and a truth for each request, in their order, and one line more that
/// cannot be read where the profile says so. The truth of a request names it, has its class, and
/// expects a match where a rule is expected to find it.
pub proof fn corpora_hold_their_requests(
    r: GenerateResult,
    events: Seq<EventModel>,
    config: GeneratorConfig,
    format: SyntheticFormat,
    version: Seq<char>,
    i: int,
)
    requires
        is_corpus(r, events, config, format, version),
        0 <= i < events.len(),
    ensures
        r.truth@.len() == events.len(),
        r.truth@[i].event_id@ == events[i].id,
        r.truth@[i].expected.class == events[i].class,
        texts(r.truth@[i].expected.expected_rule_ids@) == events[i].rules,
        r.truth@[i].expected.expected_match <==> events[i].rules.len() > 0,
        r.truth@[i].expected.cves@.len() == 0,
        Some(r.lines@[i]@) == line_of(events[i], format),
        config.profile == Profile::Deterministic || config.profile == Profile::Mutations
            ==> r.lines@.len() == events.len() + 1 && r.manifest.expected_parser_errors == 1,
        !(config.profile == Profile::Deterministic || config.profile == Profile::Mutations)
            ==> r.lines@.len() == events.len() && r.manifest.expected_parser_errors == 0,
        r.manifest.valid_events == events.len(),
        r.manifest.seed == config.seed,
        r.manifest.profile == config.profile,
        r.manifest.hosts == config.hosts,
        r.manifest.start_timestamp_ms == config.start_timestamp_ms,
        r.manifest.duration_ms == config.duration_ms,
        r.manifest.telemetry_format == format,
        r.manifest.generator_version@ == version,
{
    lemma_lines(events, format, i);
    assert(texts(r.lines@).len() == r.lines@.len());
    assert(texts(r.lines@)[i] == r.lines@[i]@);
}

proof fn lemma_lines(events: Seq<EventModel>, format: SyntheticFormat, i: int)
    requires
        lines_of(events, format) is Some,
        0 <= i < events.len(),
    ensures
        lines_of(events, format).unwrap().len() == events.len(),
        Some(lines_of(events, format).unwrap()[i]) == line_of(events[i], format),
    decreases events.len(),
{
    let rest = events.drop_last();
    if rest.len() > 0 {
        lemma_lines(rest, format, if i < rest.len() {
            i
        } else {
            0
        });
    } else {
        reveal_with_fuel(lines_of, 2);
    }
}

/// The value of a header is that of the first header with its name, whatever the case of its
/// letters, and a dash where there is none.
pub proof fn headers_are_found_by_name(
    headers: Seq<(Seq<char>, Seq<char>)>,
    name: Seq<char>,
    i: int,
)
    ensures
        (forall|k: int| 0 <= k < headers.len() ==> lower((#[trigger] headers[k]).0) != lower(name))
            ==> first_header(headers, name) == seq!['-'],
        0 <= i < headers.len() && lower(headers[i].0) == lower(name) && (forall|k: int|
            0 <= k < i ==> lower((#[trigger] headers[k]).0) != lower(name)) ==> first_header(
            headers,
            name,
        ) == headers[i].1,
    decreases headers.len(),
{
    reveal_strlit("-");
    assert("-"@ =~= seq!['-']);
    if headers.len() > 0 {
        headers_are_found_by_name(headers.skip(1), name, i - 1);
        assert forall|k: int| 0 <= k < headers.len() - 1 implies headers.skip(1)[k] == headers[k
            + 1] by {}
    }
}

/// The target of a request is its path, and its query behind a question mark.
pub proof fn targets_are_path_and_query(e: EventModel)
    ensures
        e.args is None ==> target_of(e) == e.path,
        e.args is Some ==> target_of(e) == e.path + seq!['?'] + e.args.unwrap(),
{
    reveal_strlit("?");
    assert("?"@ =~= seq!['?']);
}

} // verus!
