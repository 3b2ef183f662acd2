//! What windows of responses, sets of addresses, patterns of findings and failures of a
//! validation are made of.

use crate::address_set::{
    any_v4, any_v6, any_whole, is_ip_set_arn, set_reasons, usable_arn, FrozenAddressSet,
};
use crate::candidate::{
    count_blocked, count_incomplete, occurrences, own_patterns, PatternModel,
};
use crate::comparison::volume_ratio;
use crate::event::TelemetryProfile;
use crate::finding::FindingExplanation;
use crate::lab_validation::{case_failures, missed_failure, unexpected_failure, FailureModel};
use crate::numbers::{ordered_keys, ordered_keys_lists_the_members, Ratio};
use crate::ordered::{ordered_texts, ordered_texts_lists_the_members};
use crate::setup::{branch_of, matcher_target, MatcherRecord};
use crate::status::{outcome_summary, StatusClassCounts};
use crate::text::{lower, opt_text, trim_text, upper};
use crate::timeline::{
    below_threshold, bucket_start, eligible_keys, first_maximum, first_minimum,
    is_outcome_summary, OutcomeWindowModel, WindowedResponseOutcomeSummary,
};
use vstd::prelude::*;

verus! {

/// The buckets that are looked at are those with enough responses, in their order, and those
/// counted as poor are the ones whose successful responses are below the given part of a hundred.
pub proof fn buckets_are_counted_by_their_responses(
    keys: Seq<i64>,
    outcomes: Map<i64, StatusClassCounts>,
    minimum: u64,
    percent: u8,
)
    ensures
        eligible_keys(keys, outcomes, minimum) == keys.filter(
            |k: i64| minimum <= outcomes[k].total(),
        ),
        below_threshold(keys, outcomes, percent) == keys.filter(
            |k: i64| outcomes[k].success * 100 < outcomes[k].total() * percent,
        ).len(),
    decreases keys.len(),
{
    reveal(Seq::filter);
    if keys.len() > 0 {
        buckets_are_counted_by_their_responses(keys.drop_last(), outcomes, minimum, percent);
    }
}

/// A bucket starts at a whole multiple of its width.
pub proof fn buckets_start_at_multiples_of_their_width(bucket: i64, width: u64)
    ensures
        bucket_start(bucket, width) is Some ==> bucket_start(bucket, width).unwrap().seconds
            == bucket * width && bucket_start(bucket, width).unwrap().nanos == 0,
        -8334601228800 <= bucket * width <= 8210266876799 <==> bucket_start(bucket, width) is Some,
{
}

/// The buckets of a window are those that are looked at and those with too few responses. No
/// bucket that is looked at has a smaller part of successful responses than the one reported, nor
/// a larger part of server errors than the one reported.
pub proof fn reported_windows_bound_their_buckets(
    r: WindowedResponseOutcomeSummary,
    window: OutcomeWindowModel,
    minimum: u64,
    percent: u8,
    without_timestamp: u64,
    bucket: i64,
)
    requires
        is_outcome_summary(r, window, minimum, percent, without_timestamp),
        window.outcomes.dom().finite(),
        window.outcomes.dom().contains(bucket),
        window.outcomes[bucket].total() >= minimum,
        forall|k: i64| #[trigger]
            window.outcomes.dom().contains(k) ==> window.outcomes[k].total() <= u64::MAX,
    ensures
        r.bucket_width_seconds == window.width,
        r.minimum_requests_per_bucket == minimum,
        r.eligible_buckets + r.buckets_below_minimum == window.outcomes.dom().len(),
        r.eligible_buckets > 0,
        r.observations_without_timestamp == without_timestamp,
        r.observations_beyond_bucket_cap == window.timeline.beyond_cap,
        r.success_share_threshold_percent == Some(percent),
        r.minimum_success_share is Some,
        r.minimum_success_share.unwrap().numerator * window.outcomes[bucket].total()
            <= window.outcomes[bucket].success * r.minimum_success_share.unwrap().denominator,
        r.maximum_server_error_share is Some,
        r.maximum_server_error_share.unwrap().numerator * window.outcomes[bucket].total()
            >= window.outcomes[bucket].server_error
            * r.maximum_server_error_share.unwrap().denominator,
{
    let all = ordered_keys(window.outcomes.dom());
    let keys = eligible_keys(all, window.outcomes, minimum);
    ordered_keys_lists_the_members(window.outcomes.dom());
    all.unique_seq_to_set();
    assert(all.to_set().contains(bucket));
    let i = choose|i: int| 0 <= i < all.len() && all[i] == bucket;
    let at = lemma_eligible(all, window.outcomes, minimum, i);
    lemma_eligible_members(all, window.outcomes, minimum);
    assert(keys[at] == bucket);
    let low = choose|at: int| #[trigger]
        first_minimum(keys, window.outcomes, at) && r.minimum_success_share
            == Some(
            Ratio {
                numerator: window.outcomes[keys[at]].success,
                denominator: window.outcomes[keys[at]].total() as u64,
            },
        ) && r.minimum_success_bucket_start == bucket_start(keys[at], window.width);
    let high = choose|at: int| #[trigger]
        first_maximum(keys, window.outcomes, at) && r.maximum_server_error_share
            == Some(
            Ratio {
                numerator: window.outcomes[keys[at]].server_error,
                denominator: window.outcomes[keys[at]].total() as u64,
            },
        ) && r.maximum_server_error_bucket_start == bucket_start(keys[at], window.width);
    assert(all.to_set().contains(keys[low]) && all.to_set().contains(keys[high]));
}

proof fn lemma_eligible(
    keys: Seq<i64>,
    outcomes: Map<i64, StatusClassCounts>,
    minimum: u64,
    i: int,
) -> (at: int)
    requires
        0 <= i < keys.len(),
        outcomes[keys[i]].total() >= minimum,
    ensures
        0 <= at < eligible_keys(keys, outcomes, minimum).len(),
        eligible_keys(keys, outcomes, minimum)[at] == keys[i],
    decreases keys.len(),
{
    if i == keys.len() - 1 {
        eligible_keys(keys, outcomes, minimum).len() - 1
    } else {
        lemma_eligible(keys.drop_last(), outcomes, minimum, i)
    }
}

proof fn lemma_eligible_members(
    keys: Seq<i64>,
    outcomes: Map<i64, StatusClassCounts>,
    minimum: u64,
)
    ensures
        eligible_keys(keys, outcomes, minimum).len() <= keys.len(),
        forall|j: int|
            0 <= j < eligible_keys(keys, outcomes, minimum).len() ==> keys.to_set().contains(
                #[trigger] eligible_keys(keys, outcomes, minimum)[j],
            ),
    decreases keys.len(),
{
    if keys.len() > 0 {
        let rest = keys.drop_last();
        lemma_eligible_members(rest, outcomes, minimum);
        let list = eligible_keys(keys, outcomes, minimum);
        assert forall|j: int| 0 <= j < list.len() implies keys.to_set().contains(
            #[trigger] list[j],
        ) by {
            let before = eligible_keys(rest, outcomes, minimum);
            if j < before.len() {
                assert(before[j] == list[j]);
                assert(rest.to_set().contains(before[j]));
                let k = choose|k: int| 0 <= k < rest.len() && rest[k] == before[j];
                assert(keys[k] == list[j]);
            } else {
                assert(keys[keys.len() - 1] == list[j]);
            }
        }
    }
}

/// The shares of a summary of responses are of all responses, and those of the client errors are
/// parted into closed requests and the others.
pub proof fn shares_are_of_all_responses(counts: StatusClassCounts)
    requires
        counts.wf(),
    ensures
        ({
            let r = outcome_summary(counts);
            let total = counts.informational + counts.success + counts.redirection
                + counts.client_error + counts.server_error + counts.other + counts.unavailable;
            &&& r.counts == counts
            &&& r.success_share.numerator == counts.success
            &&& r.redirection_share.numerator == counts.redirection
            &&& r.server_error_share.numerator == counts.server_error
            &&& r.client_closed_request_499_share.numerator == counts.client_closed_request_499
            &&& r.ordinary_client_error_share.numerator
                + r.client_closed_request_499_share.numerator == counts.client_error
            &&& r.success_share.denominator == total
            &&& r.redirection_share.denominator == total
            &&& r.ordinary_client_error_share.denominator == total
            &&& r.client_closed_request_499_share.denominator == total
            &&& r.server_error_share.denominator == total
        }),
{
}

/// Whether a family of addresses is in a set.
pub open spec fn has_family(s: FrozenAddressSet, v4: bool) -> bool {
    exists|i: int| 0 <= i < s.networks@.len() && (#[trigger] s.networks@[i]).v4 == v4
}

/// A set of addresses without a reason against it has no network that holds everything, has a
/// reference to a set for each family in it, and not the same one for both.
pub proof fn usable_sets_have_their_references(s: FrozenAddressSet, i: int)
    requires
        0 <= i < s.networks@.len(),
    ensures
        set_reasons(s).len() == 0 ==> {
            &&& s.networks@[i].prefix != 0
            &&& s.networks@[i].v4 ==> s.ipv4_arn is Some && is_ip_set_arn(s.ipv4_arn.unwrap()@)
            &&& !s.networks@[i].v4 ==> s.ipv6_arn is Some && is_ip_set_arn(s.ipv6_arn.unwrap()@)
            &&& has_family(s, true) && has_family(s, false) ==> s.ipv4_arn.unwrap()@
                != s.ipv6_arn.unwrap()@
        },
        s.networks@[i].v4 && (s.ipv4_arn is None || !is_ip_set_arn(s.ipv4_arn.unwrap()@))
            ==> set_reasons(s).contains("IPv4 requires an operator-supplied WAFv2 IP set ARN"@),
        !s.networks@[i].v4 && (s.ipv6_arn is None || !is_ip_set_arn(s.ipv6_arn.unwrap()@))
            ==> set_reasons(s).contains("IPv6 requires an operator-supplied WAFv2 IP set ARN"@),
        s.networks@[i].prefix == 0 ==> set_reasons(s).contains(
            "AWS WAF IP sets cannot faithfully represent /0 ranges"@,
        ),
{
    let list = s.networks@;
    assert(any_v4(list) == has_family(s, true)) by {
        if has_family(s, true) {
            let k = choose|k: int| 0 <= k < list.len() && (#[trigger] list[k]).v4 == true;
            assert(list[k].v4);
        }
    }
    assert(any_v6(list) == has_family(s, false)) by {
        if has_family(s, false) {
            let k = choose|k: int| 0 <= k < list.len() && (#[trigger] list[k]).v4 == false;
            assert(!list[k].v4);
        }
    }
    let v4 = any_v4(list);
    let v6 = any_v6(list);
    let r0: Seq<Seq<char>> = seq![];
    let whole = "AWS WAF IP sets cannot faithfully represent /0 ranges"@;
    let first = "IPv4 requires an operator-supplied WAFv2 IP set ARN"@;
    let second = "IPv6 requires an operator-supplied WAFv2 IP set ARN"@;
    let r1 = if any_whole(list) {
        r0.push(whole)
    } else {
        r0
    };
    let bad4 = v4 && !usable_arn(s.ipv4_arn);
    let r2 = if bad4 {
        r1.push(first)
    } else {
        r1
    };
    let bad6 = v6 && !usable_arn(s.ipv6_arn);
    let r3 = if bad6 {
        r2.push(second)
    } else {
        r2
    };
    let r = set_reasons(s);
    assert(r3.len() <= r.len() && forall|k: int| 0 <= k < r3.len() ==> r[k] == r3[k]);
    if s.networks@[i].prefix == 0 {
        assert(r[0] == whole);
    }
    if bad4 {
        assert(r[r1.len() as int] == first);
    }
    if bad6 {
        assert(r[r2.len() as int] == second);
    }
}

/// Whether a finding was blocked where it was observed.
pub open spec fn was_blocked(f: FindingExplanation, telemetry: TelemetryProfile) -> bool {
    telemetry is AwsWaf && f.waf_action is Some && lower(f.waf_action.unwrap()@) == seq![
        'b',
        'l',
        'o',
        'c',
        'k',
    ]
}

/// Findings that were blocked are counted, and so are those that were not and have no method or
/// no path.
pub proof fn unused_findings_are_counted(
    findings: Seq<FindingExplanation>,
    telemetry: TelemetryProfile,
)
    ensures
        count_blocked(findings, telemetry) == findings.filter(
            |f: FindingExplanation| was_blocked(f, telemetry),
        ).len(),
        count_incomplete(findings, telemetry) == findings.filter(
            |f: FindingExplanation|
                !was_blocked(f, telemetry) && (f.method is None || f.uri_path is None),
        ).len(),
    decreases findings.len(),
{
    reveal(Seq::filter);
    reveal_strlit("BLOCK");
    assert(lower("BLOCK"@) =~= seq!['b', 'l', 'o', 'c', 'k']);
    if findings.len() > 0 {
        unused_findings_are_counted(findings.drop_last(), telemetry);
    }
}

/// A finding that was not blocked and has a method and a path gives a pattern for each of its
/// CVEs, and no other finding gives one.
pub proof fn patterns_are_of_their_findings(
    findings: Seq<FindingExplanation>,
    telemetry: TelemetryProfile,
    f: FindingExplanation,
    k: int,
)
    requires
        findings.len() < usize::MAX,
    ensures
        occurrences(Seq::empty(), telemetry).len() == 0,
        was_blocked(f, telemetry) || f.method is None || f.uri_path is None ==> occurrences(
            findings.push(f),
            telemetry,
        ) == occurrences(findings, telemetry),
        !was_blocked(f, telemetry) && f.method is Some && f.uri_path is Some ==> {
            let before = occurrences(findings, telemetry);
            let after = occurrences(findings.push(f), telemetry);
            &&& after.len() == before.len() + f.cves@.len()
            &&& after.take(before.len() as int) == before
            &&& 0 <= k < f.cves@.len() ==> after[before.len() + k] == (
                PatternModel {
                    cve: upper(trim_text(f.cves@[k]@)),
                    method: f.method.unwrap()@,
                    path: f.uri_path.unwrap()@,
                    query: opt_text(f.uri_query),
                },
                findings.len() as usize,
            )
        },
{
    reveal_strlit("BLOCK");
    assert(lower("BLOCK"@) =~= seq!['b', 'l', 'o', 'c', 'k']);
    assert(findings.push(f).drop_last() =~= findings);
    let before = occurrences(findings, telemetry);
    let own = own_patterns(f, findings.len() as usize);
    assert((before + own).take(before.len() as int) =~= before);
}

/// A branch is read back from the line that names it.
pub proof fn branches_are_read_back(name: Seq<char>)
    ensures
        branch_of("ref: refs/heads/"@ + name + "\tHEAD"@) == Some(name),
{
    reveal_strlit("ref: refs/heads/");
    reveal_strlit("\tHEAD");
    let (head, tail) = ("ref: refs/heads/"@, "\tHEAD"@);
    let line = head + name + tail;
    assert(line.subrange(0, head.len() as int) =~= head);
    let rest = line.skip(head.len() as int);
    assert(rest =~= name + tail);
    assert(rest.subrange(rest.len() - tail.len(), rest.len() as int) =~= tail);
    assert(line.subrange(head.len() as int, line.len() - tail.len()) =~= name);
}

/// A target has its path, its query behind a question mark and its fragment behind a hash.
pub proof fn targets_have_their_parts(m: MatcherRecord)
    ensures
        m.query is None && m.fragment is None ==> matcher_target(m) == m.path@,
        m.query is Some && m.fragment is None ==> matcher_target(m) == m.path@ + seq!['?']
            + m.query.unwrap()@,
        m.query is None && m.fragment is Some ==> matcher_target(m) == m.path@ + seq!['#']
            + m.fragment.unwrap()@,
        m.query is Some && m.fragment is Some ==> matcher_target(m) == m.path@ + seq!['?']
            + m.query.unwrap()@ + seq!['#'] + m.fragment.unwrap()@,
{
    reveal_strlit("?");
    reveal_strlit("#");
    reveal_strlit("");
    assert("?"@ =~= seq!['?'] && "#"@ =~= seq!['#'] && ""@ =~= Seq::<char>::empty());
    let t = matcher_target(m);
    if m.query is None && m.fragment is None {
        assert(t =~= m.path@);
    } else if m.fragment is None {
        assert(t =~= m.path@ + seq!['?'] + m.query.unwrap()@);
    } else if m.query is None {
        assert(t =~= m.path@ + seq!['#'] + m.fragment.unwrap()@);
    } else {
        assert(t =~= m.path@ + seq!['?'] + m.query.unwrap()@ + seq!['#'] + m.fragment.unwrap()@);
    }
}

/// A volume is compared with one of at least thirty requests, and with no other.
pub proof fn small_volumes_are_not_compared(baseline: u64, current: u64)
    ensures
        baseline < 30 ==> volume_ratio(Some(baseline), current) is None,
        baseline >= 30 ==> volume_ratio(Some(baseline), current) is Some && volume_ratio(
            Some(baseline),
            current,
        ).unwrap().numerator == current && volume_ratio(
            Some(baseline),
            current,
        ).unwrap().denominator == baseline,
        volume_ratio(None, current) is None,
{
}

/// A case has a failure for each rule that missed it, and one for each that should not have found
/// it.
pub proof fn failures_are_of_the_rules(
    id: Seq<char>,
    wanted: Set<Seq<char>>,
    found: Set<Seq<char>>,
    rule: Seq<char>,
)
    requires
        wanted.finite(),
        found.finite(),
    ensures
        case_failures(id, wanted, found).len() == wanted.difference(found).len()
            + found.difference(wanted).len(),
        wanted.contains(rule) && !found.contains(rule) ==> case_failures(
            id,
            wanted,
            found,
        ).contains(
            (FailureModel {
                case_id: id,
                status: "failed"@,
                category: "EXPECTED_RULE_MISSED"@,
                expected_rule: Some(rule),
                details: "the expected rule did not produce a finding"@,
            }),
        ),
        found.contains(rule) && !wanted.contains(rule) ==> case_failures(
            id,
            wanted,
            found,
        ).contains(
            (FailureModel {
                case_id: id,
                status: "failed"@,
                category: "EXPECTED_BEHAVIOR_ERROR"@,
                expected_rule: None,
                details: "unexpected finding from rule `"@ + rule + "`"@,
            }),
        ),
{
    let missed = ordered_texts(wanted.difference(found));
    let more = ordered_texts(found.difference(wanted));
    ordered_texts_lists_the_members(wanted.difference(found));
    ordered_texts_lists_the_members(found.difference(wanted));
    let list = case_failures(id, wanted, found);
    if wanted.contains(rule) && !found.contains(rule) {
        assert(missed.to_set().contains(rule));
        let k = choose|k: int| 0 <= k < missed.len() && missed[k] == rule;
        assert(list[k] == missed_failure(id, rule));
    }
    if found.contains(rule) && !wanted.contains(rule) {
        assert(more.to_set().contains(rule));
        let k = choose|k: int| 0 <= k < more.len() && more[k] == rule;
        assert(list[missed.len() + k] == unexpected_failure(id, rule));
    }
}

} // verus!
