//! What is read from stored runs, what is decided on stored opinions and facts, and how addresses
//! and events are read.

use crate::address_set::{entry_of, list_of, value_of, Entry};
use crate::conditions::{
    recorded, second_of_day, seconds_between, weekday, FactModel, RecordedFact, RunModel,
};
use crate::consistency::{compared, ComparisonOutcome, UnavailableReason};
use crate::disposition::{deadline, due_by, is_due, DispositionEntry};
use crate::event::{
    client_of, forwarded_values, nearest_untrusted, trusted, HttpHeader, Timestamp, WebEvent,
};
use crate::focus_groups::{prefix_key, FocusPrefixLengths};
use crate::investigation::{standing, ContextOptions, Standing};
use crate::json::{field2, field3, field_of, JsonModel};
use crate::network::{canonical, network_display, parsed_address, parsed_network, Address, Network};
use crate::references::{arranges, has_order, MetricDistribution};
use crate::numbers::Ratio;
use crate::text::{lemma_first_of_unique, lower};
use crate::text_laws::{is_all_space, only_space_is_trimmed};
use vstd::prelude::*;

verus! {

/// A number that a run records at its field is the fact of that name.
pub proof fn numbers_are_read_from_their_fields(run: RunModel, t: Seq<char>)
    ensures
        ({
            let n = Some(JsonModel::Number(t));
            let fact = Some(FactModel::Written(t));
            let (manifest, metrics, summary) = (run.manifest, run.metrics, run.summary);
            &&& field_of(metrics, "total_requests_analyzed"@) == n ==> recorded(
                RecordedFact::AnalyzedRequests,
                run,
            ) == fact
            &&& field_of(metrics, "files_analyzed"@) == n ==> recorded(
                RecordedFact::FilesAnalyzed,
                run,
            ) == fact
            &&& field_of(metrics, "files_skipped_as_processed"@) == n ==> recorded(
                RecordedFact::FilesSkippedAsProcessed,
                run,
            ) == fact
            &&& field_of(metrics, "requests_outside_time_range"@) == n ==> recorded(
                RecordedFact::OutsideWindow,
                run,
            ) == fact
            &&& field_of(metrics, "parse_errors"@) == n ==> recorded(
                RecordedFact::ParseErrors,
                run,
            ) == fact
            &&& field_of(metrics, "requests_without_timestamp_excluded"@) == n ==> recorded(
                RecordedFact::UndatedExcluded,
                run,
            ) == fact
            &&& field2(metrics, "fields_available"@, "client_ip"@) == n ==> recorded(
                RecordedFact::PopulatedClientIp,
                run,
            ) == fact
            &&& field2(metrics, "fields_available"@, "headers"@) == n ==> recorded(
                RecordedFact::PopulatedHeaders,
                run,
            ) == fact
            &&& field2(metrics, "fields_available"@, "query"@) == n ==> recorded(
                RecordedFact::PopulatedQuery,
                run,
            ) == fact
            &&& field_of(summary, "total_requests"@) == n ==> recorded(
                RecordedFact::ResponseObservations,
                run,
            ) == fact
            &&& field_of(summary, "paths_beyond_tracking_cap"@) == n ==> recorded(
                RecordedFact::PathCapOmissions,
                run,
            ) == fact
            &&& field_of(summary, "source_ips_beyond_tracking_cap"@) == n ==> recorded(
                RecordedFact::SourceCapOmissions,
                run,
            ) == fact
            &&& field_of(summary, "source_path_pairs_beyond_tracking_cap"@) == n ==> recorded(
                RecordedFact::PairCapOmissions,
                run,
            ) == fact
            &&& field2(summary, "requests_per_minute"@, "observations_without_timestamp"@) == n
                ==> recorded(RecordedFact::UndatedObservations, run) == fact
            &&& field3(summary, "response_outcomes"@, "counts"@, "unavailable"@) == n ==> recorded(
                RecordedFact::StatusUnavailable,
                run,
            ) == fact
            &&& field2(manifest, "inputs"@, "approved_validated_template_count"@) == n ==> recorded(
                RecordedFact::ApprovedTemplates,
                run,
            ) == fact
            &&& field2(manifest, "tracking_limits"@, "max_paths"@) == n ==> recorded(
                RecordedFact::MaxPaths,
                run,
            ) == fact
            &&& field2(manifest, "tracking_limits"@, "max_source_ips"@) == n ==> recorded(
                RecordedFact::MaxSourceIps,
                run,
            ) == fact
            &&& field2(manifest, "tracking_limits"@, "max_source_path_pairs"@) == n ==> recorded(
                RecordedFact::MaxSourcePathPairs,
                run,
            ) == fact
            &&& field2(manifest, "tracking_limits"@, "max_source_segments"@) == n ==> recorded(
                RecordedFact::MaxSourceSegments,
                run,
            ) == fact
            &&& field_of(manifest, "sigma_rules_evaluated"@) == n ==> recorded(
                RecordedFact::SigmaRulesEvaluated,
                run,
            ) == fact
        }),
{
}

/// A setting that a run records is kept as the digest of what its field holds, and a setting
/// without a field is not recorded.
pub proof fn settings_are_read_from_their_fields(run: RunModel)
    ensures
        ({
            let m = run.manifest;
            let known = |fact: RecordedFact, at: Option<JsonModel>|
                recorded(fact, run) is Some == (at is Some && !(at.unwrap() is Null)) && (recorded(
                    fact,
                    run,
                ) is Some ==> recorded(fact, run) == crate::conditions::signed(at));
            &&& known(RecordedFact::CorpusScopeAnnotation, field_of(m, "corpus_label"@))
            &&& known(RecordedFact::NucleiRevision, field_of(m, "nuclei_revision"@))
            &&& known(RecordedFact::ShenronVersion, field_of(m, "shenron_version"@))
            &&& known(RecordedFact::TelemetryProfile, field_of(m, "telemetry_profile"@))
            &&& known(
                RecordedFact::TemplateSelection,
                field2(m, "inputs"@, "template_filter"@),
            )
            &&& known(
                RecordedFact::TriagePolicy,
                field2(m, "hunt_parameters"@, "triage_policy"@),
            )
            &&& known(
                RecordedFact::TrustedProxyConfiguration,
                field2(m, "hunt_parameters"@, "trusted_proxy_networks"@),
            )
            &&& known(
                RecordedFact::KevReport,
                field3(m, "inputs"@, "kev_report"@, "sha256"@),
            )
            &&& known(
                RecordedFact::NucleiReport,
                field3(m, "inputs"@, "nuclei_report"@, "sha256"@),
            )
        }),
{
}

/// The day of the week goes on by one each day, from the Thursday of the epoch on; Monday is
/// zero. The second of the day is zero at the start of a day and goes on by one each second.
pub proof fn days_follow_one_another(day: int, second: int, t: Timestamp, next: Timestamp)
    requires
        0 <= second < 86400,
        t.seconds == day * 86400 + second,
        next.seconds == (day + 1) * 86400 + second,
    ensures
        0 <= weekday(t) < 7,
        weekday(next) == (if weekday(t) == 6 {
            0
        } else {
            weekday(t) + 1
        }),
        day == 0 ==> weekday(t) == 3,
        second_of_day(t) == second,
        second_of_day(next) == second,
{
    assert(t.seconds as int / 86400 == day);
    assert(next.seconds as int / 86400 == day + 1);
}

/// From one point in time to another it takes as many seconds as they are apart, rounded towards
/// zero, and back the same with the sign turned, where neither is a leap second.
pub proof fn spans_are_differences(a: Timestamp, b: Timestamp)
    requires
        a.nanos < 1_000_000_000,
        b.nanos < 1_000_000_000,
    ensures
        seconds_between(b, a) == -seconds_between(a, b),
        a.nanos == b.nanos ==> seconds_between(a, b) == b.seconds - a.seconds,
        !b.before(a) ==> b.seconds - a.seconds - 1 <= seconds_between(a, b) <= b.seconds
            - a.seconds,
        seconds_between(a, a) == 0,
{
    let n = (b.seconds - a.seconds) * 1_000_000_000 + (b.nanos - a.nanos);
    let m = (a.seconds - b.seconds) * 1_000_000_000 + (a.nanos - b.nanos);
    assert(m == -n);
}

/// A fact is compared only where the telemetry exposes it, a value was observed and there are
/// reference data; the first of these that is missing is the reason. A comparison matches where
/// it does.
pub proof fn comparisons_need_all_three(
    exposed: bool,
    observed: bool,
    reference: bool,
    matches: bool,
)
    ensures
        ({
            let r = compared(exposed, observed, reference, matches);
            &&& !exposed <==> r.unavailable_reason == Some(
                UnavailableReason::TelemetryDoesNotExpose,
            )
            &&& exposed && !observed <==> r.unavailable_reason == Some(
                UnavailableReason::ObservedValueMissing,
            )
            &&& exposed && observed && !reference <==> r.unavailable_reason == Some(
                UnavailableReason::ReferenceDataMissing,
            )
            &&& exposed && observed && reference ==> (r.outcome == ComparisonOutcome::Match
                <==> matches) && (r.outcome == ComparisonOutcome::Mismatch <==> !matches)
        }),
{
}

/// An event is eligible for a context exactly where its connection peer is one of the selected
/// addresses and it has a time inside the window, both bounds included. Of the others, one of
/// another peer is not selected, one without a time is undated, and the rest lie outside.
pub proof fn eligible_events_are_selected_and_inside(options: ContextOptions, e: WebEvent)
    ensures
        ({
            let selected = e.source_ip is Some && parsed_address(e.source_ip.unwrap()@) is Some
                && options.source_ips@.contains(parsed_address(e.source_ip.unwrap()@).unwrap());
            let inside = |t: Timestamp|
                (options.from is Some ==> !t.before(options.from.unwrap())) && (options.to is Some
                    ==> !options.to.unwrap().before(t));
            &&& standing(options, e) == Standing::Eligible <==> selected && e.timestamp is Some
                && inside(e.timestamp.unwrap())
            &&& standing(options, e) == Standing::NotSelected <==> !selected
            &&& standing(options, e) == Standing::NoTimestamp <==> selected && e.timestamp is None
            &&& standing(options, e) == Standing::OutsideWindow <==> selected && e.timestamp is Some
                && !inside(e.timestamp.unwrap())
        }),
{
}

/// One point in time is before another where its seconds are fewer, or as many with fewer
/// nanoseconds.
pub proof fn earlier_times_have_fewer_seconds(a: Timestamp, b: Timestamp)
    ensures
        a.before(b) == (a.seconds * 0x1_0000_0000 + a.nanos < b.seconds * 0x1_0000_0000 + b.nanos),
{
}

/// A review is due from its deadline on, and not before it. Entries that are due are those with a
/// deadline that has come.
pub proof fn reviews_are_due_from_their_deadline(
    list: Seq<DispositionEntry>,
    limit: Timestamp,
    now: Timestamp,
    n: nat,
)
    requires
        n <= list.len(),
    ensures
        is_due(limit, now) == (limit.before(now) || limit == now),
        due_by(list, now, n) == list.take(n as int).filter(
            |e: DispositionEntry|
                deadline(e) is Some && !now.before(deadline(e).unwrap()),
        ).len(),
    decreases n,
{
    reveal(Seq::filter);
    if n > 0 {
        reviews_are_due_from_their_deadline(list, limit, now, (n - 1) as nat);
        assert(list.take(n as int).drop_last() =~= list.take(n - 1));
        assert(list.take(n as int).last() == list[n - 1]);
    } else {
        assert(list.take(0) =~= Seq::<DispositionEntry>::empty());
    }
}

/// The deadline of an entry is that of its review.
pub proof fn deadlines_are_those_of_reviews(e: DispositionEntry)
    ensures
        deadline(e) == (match e.review {
            Some(review) => review.review_after,
            None => None,
        }),
{
}

/// An address is grouped with the network of the configured length for its family, in which it
/// lies.
pub proof fn addresses_are_grouped_with_their_network(
    source: Seq<char>,
    address: Address,
    prefixes: FocusPrefixLengths,
)
    requires
        parsed_address(source) == Some(address),
    ensures
        ({
            let length = if address.v4 {
                prefixes.ipv4
            } else {
                prefixes.ipv6
            };
            let whole: nat = if address.v4 {
                32
            } else {
                128
            };
            &&& prefix_key(source, prefixes) is Some == (length <= whole)
            &&& length <= whole ==> prefix_key(source, prefixes) == Some(
                network_display(
                    (Network { v4: address.v4, bits: address.bits, prefix: length }).truncated(),
                ),
            )
        }),
{
}

/// The client behind trusted proxies is found: where the peer is trusted and every hop can be
/// read, it is the last hop that is not a trusted proxy, and there is one exactly where some hop
/// is none.
pub proof fn a_client_is_found_behind_proxies(
    networks: Seq<Network>,
    peer: Address,
    chain: Seq<Option<Address>>,
    i: int,
)
    requires
        trusted(networks, peer),
        forall|j: int| 0 <= j < chain.len() ==> (#[trigger] chain[j]) is Some,
        0 <= i < chain.len(),
        !trusted(networks, canonical(chain[i].unwrap())),
        forall|j: int|
            i < j < chain.len() ==> trusted(networks, canonical((#[trigger] chain[j]).unwrap())),
    ensures
        client_of(networks, Some(peer), chain) == Some(canonical(chain[i].unwrap())),
{
    let known = crate::event::canonical_chain(chain);
    assert forall|j: int| i < j < known.len() implies trusted(networks, #[trigger] known[j]) by {
        assert(trusted(networks, canonical(chain[j].unwrap())));
    }
    assert(known[i] == canonical(chain[i].unwrap()));
    lemma_last_untrusted(networks, known, i);
}

proof fn lemma_last_untrusted(networks: Seq<Network>, chain: Seq<Address>, i: int)
    requires
        0 <= i < chain.len(),
        !trusted(networks, chain[i]),
        forall|j: int| i < j < chain.len() ==> trusted(networks, #[trigger] chain[j]),
    ensures
        nearest_untrusted(networks, chain) == Some(chain[i]),
    decreases chain.len(),
{
    if i < chain.len() - 1 {
        assert(trusted(networks, chain[chain.len() - 1]));
        let rest = chain.drop_last();
        assert forall|j: int| i < j < rest.len() implies trusted(networks, #[trigger] rest[j]) by {
            assert(rest[j] == chain[j]);
        }
        lemma_last_untrusted(networks, rest, i);
    }
}

/// Whether a header is one that forwards addresses, whatever the case of its name.
pub open spec fn forwards(h: HttpHeader) -> bool {
    lower(h.name@) == "x-forwarded-for"@
}

/// The forwarded chains of a request are the values of its `X-Forwarded-For` headers, whatever
/// the case of their names, in their order.
pub proof fn chains_come_from_their_headers(headers: Seq<HttpHeader>)
    ensures
        forwarded_values(headers) == headers.filter(|h: HttpHeader| forwards(h)).map_values(
            |h: HttpHeader| h.value@,
        ),
    decreases headers.len(),
{
    reveal(Seq::filter);
    reveal_strlit("x-forwarded-for");
    assert(lower("x-forwarded-for"@) =~= "x-forwarded-for"@);
    if headers.len() > 0 {
        chains_come_from_their_headers(headers.drop_last());
        let before = headers.drop_last().filter(|h: HttpHeader| forwards(h));
        let all = headers.filter(|h: HttpHeader| forwards(h));
        assert(forwarded_values(headers) =~= all.map_values(|h: HttpHeader| h.value@));
    } else {
        assert(forwarded_values(headers) =~= headers.filter(
            |h: HttpHeader| forwards(h),
        ).map_values(|h: HttpHeader| h.value@));
    }
}

/// A line of an address list is what stands before its comment, without the white space around
/// it: a network, or an address as a network of its own, or nothing; anything else is invalid.
pub proof fn lines_stand_for_networks(
    before: Seq<char>,
    value: Seq<char>,
    after: Seq<char>,
    comment: Seq<char>,
)
    requires
        is_all_space(before),
        is_all_space(after),
        value.len() > 0 ==> !crate::text::is_space(value[0]) && !crate::text::is_space(
            value.last(),
        ),
        !value.contains('#'),
    ensures
        ({
            let plain = before + value + after;
            &&& value_of(plain) == value
            &&& value_of(plain + seq!['#'] + comment) == value
            &&& entry_of(plain) == (if value.len() == 0 {
                Entry::Blank
            } else if parsed_network(value) is Some {
                Entry::Listed(parsed_network(value).unwrap().truncated())
            } else if parsed_address(value) is Some {
                let a = parsed_address(value).unwrap();
                Entry::Listed(
                    (Network {
                        v4: a.v4,
                        bits: a.bits,
                        prefix: if a.v4 {
                            32
                        } else {
                            128
                        },
                    }).truncated(),
                )
            } else {
                Entry::Invalid
            })
        }),
{
    let plain = before + value + after;
    only_space_is_trimmed(before, value, after);
    assert forall|i: int| 0 <= i < plain.len() implies plain[i] != '#' by {
        if i < before.len() {
            assert(plain[i] == before[i]);
        } else if i < before.len() + value.len() {
            assert(plain[i] == value[i - before.len()]);
            assert(value.contains(value[i - before.len()]));
        } else {
            assert(plain[i] == after[i - before.len() - value.len()]);
        }
    }
    lemma_first_of_unique(plain, '#', plain.len() as int);
    assert(plain.take(plain.len() as int) =~= plain);
    let long = plain + seq!['#'] + comment;
    assert(long[plain.len() as int] == '#');
    assert forall|i: int| 0 <= i < plain.len() implies long[i] != '#' by {
        assert(long[i] == plain[i]);
    }
    lemma_first_of_unique(long, '#', plain.len() as int);
    assert(long.take(plain.len() as int) =~= plain);
}

/// An address list holds exactly the networks that its lines stand for.
pub proof fn lists_hold_what_their_lines_stand_for(lines: Seq<Seq<char>>, n: Network)
    ensures
        list_of(lines).networks.contains(n) == exists|i: int|
            0 <= i < lines.len() && entry_of(#[trigger] lines[i]) == Entry::Listed(n),
        list_of(lines).invalid == lines.filter(|l: Seq<char>| entry_of(l) is Invalid).len(),
        list_of(lines).blank == lines.filter(|l: Seq<char>| entry_of(l) is Blank).len(),
    decreases lines.len(),
{
    reveal(Seq::filter);
    if lines.len() > 0 {
        let before = lines.drop_last();
        lists_hold_what_their_lines_stand_for(before, n);
        assert(lines[lines.len() - 1] == lines.last());
        if exists|i: int| 0 <= i < before.len() && entry_of(#[trigger] before[i]) == Entry::Listed(n) {
            let i = choose|i: int|
                0 <= i < before.len() && entry_of(#[trigger] before[i]) == Entry::Listed(n);
            assert(lines[i] == before[i]);
        }
        if exists|i: int| 0 <= i < lines.len() && entry_of(#[trigger] lines[i]) == Entry::Listed(n) {
            let i = choose|i: int|
                0 <= i < lines.len() && entry_of(#[trigger] lines[i]) == Entry::Listed(n);
            if i < before.len() {
                assert(before[i] == lines[i]);
            }
        }
    }
}

/// A distribution of values gives one of them as the smallest, with none below it, and one as the
/// largest, with none above it. Values are compared as quotients.
pub proof fn distributions_bound_their_values(
    r: MetricDistribution,
    values: Seq<Ratio>,
    list: Seq<Ratio>,
    i: int,
)
    requires
        arranges(list, values),
        has_order(r, list),
        0 <= i < list.len(),
    ensures
        r.minimum matches Some(low) && list.contains(low) && (i > 0 ==> crate::references::at_most(
            low,
            list[i],
        )),
        r.maximum matches Some(high) && list.contains(high) && (i < list.len() - 1
            ==> crate::references::at_most(list[i], high)),
        r.median matches Some(m) && list.contains(m.lower) && list.contains(m.upper),
{
    let n = list.len() as int;
    assert(list.contains(list[0]));
    assert(list.contains(list[n - 1]));
    assert(list.contains(list[(n - 1) / 2]));
    assert(list.contains(list[n / 2]));
}

} // verus!
