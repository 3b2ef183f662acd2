//! The documented shape of the volume profile.

use crate::lab::{
    benchmark_address, focus_octets, focus_source, focus_sources_are_distinct, volume_event,
    volume_minute, EventModel, GeneratorConfig, VOLUMETRIC_CONCENTRATION_EVENTS,
    VOLUMETRIC_CONCENTRATION_PATH, VOLUMETRIC_CONCENTRATION_SOURCE_IPS,
};
use crate::text::{decimal, digit_char};
use vstd::prelude::*;
use vstd::string::*;

verus! {

broadcast use vstd::string::group_string_axioms;

proof fn lemma_digits(n: nat)
    ensures
        decimal(n).len() > 0,
        n >= 10 ==> decimal(n).len() > 1,
        n < 10 ==> decimal(n).len() == 1,
        forall|i: int| 0 <= i < decimal(n).len() ==> #[trigger] decimal(n)[i] != '.',
    decreases n,
{
    if n >= 10 {
        lemma_digits(n / 10);
    }
}

proof fn lemma_digit_is_unique(a: nat, b: nat)
    requires
        a < 10,
        b < 10,
        digit_char(a) == digit_char(b),
    ensures
        a == b,
{
}

/// No two numbers are written alike.
proof fn lemma_decimal_is_unique(a: nat, b: nat)
    requires
        decimal(a) == decimal(b),
    ensures
        a == b,
    decreases a,
{
    lemma_digits(a);
    lemma_digits(b);
    if a < 10 {
        assert(b < 10);
        assert(decimal(a)[0] == digit_char(a));
        assert(decimal(b)[0] == digit_char(b));
        lemma_digit_is_unique(a, b);
    } else {
        assert(decimal(a).drop_last() =~= decimal(a / 10));
        assert(decimal(b).drop_last() =~= decimal(b / 10));
        lemma_decimal_is_unique(a / 10, b / 10);
        assert(decimal(a).last() == digit_char(a % 10));
        assert(decimal(b).last() == digit_char(b % 10));
        lemma_digit_is_unique(a % 10, b % 10);
    }
}

/// No two addresses are written alike.
proof fn lemma_address_is_unique(a: (int, int), b: (int, int))
    requires
        a.0 >= 0,
        a.1 >= 0,
        b.0 >= 0,
        b.1 >= 0,
        benchmark_address(a.0, a.1) == benchmark_address(b.0, b.1),
    ensures
        a == b,
{
    reveal_strlit("198.18.");
    reveal_strlit(".");
    let (x, y) = (decimal(a.0 as nat), decimal(b.0 as nat));
    let (u, v) = (decimal(a.1 as nat), decimal(b.1 as nat));
    let (s, t) = (benchmark_address(a.0, a.1), benchmark_address(b.0, b.1));
    lemma_digits(a.0 as nat);
    lemma_digits(b.0 as nat);
    assert(s[7 + x.len() as int] == '.');
    assert(t[7 + y.len() as int] == '.');
    if x.len() < y.len() {
        assert(t[7 + x.len() as int] == y[x.len() as int]);
    }
    if y.len() < x.len() {
        assert(s[7 + y.len() as int] == x[y.len() as int]);
    }
    assert(x =~= y) by {
        assert forall|i: int| 0 <= i < x.len() implies x[i] == y[i] by {
            assert(s[7 + i] == x[i]);
            assert(t[7 + i] == y[i]);
        }
    }
    assert(s.len() == 7 + x.len() + 1 + u.len());
    assert(t.len() == 7 + y.len() + 1 + v.len());
    assert(u =~= v) by {
        assert forall|i: int| 0 <= i < u.len() implies u[i] == v[i] by {
            assert(s[8 + x.len() + i] == u[i]);
            assert(t[8 + y.len() + i] == v[i]);
        }
    }
    lemma_decimal_is_unique(a.0 as nat, b.0 as nat);
    lemma_decimal_is_unique(a.1 as nat, b.1 as nat);
}

/// How many events of a list have a property.
pub open spec fn count_where(events: Seq<EventModel>, holds: spec_fn(EventModel) -> bool) -> nat
    decreases events.len(),
{
    if events.len() == 0 {
        0
    } else {
        count_where(events.drop_last(), holds) + if holds(events.last()) {
            1nat
        } else {
            0nat
        }
    }
}

proof fn lemma_prefix_count(events: Seq<EventModel>, holds: spec_fn(EventModel) -> bool, n: int)
    requires
        0 <= n,
        forall|k: int| 0 <= k < events.len() ==> holds(#[trigger] events[k]) == (k < n),
    ensures
        count_where(events, holds) == if events.len() < n {
            events.len() as int
        } else {
            n
        },
    decreases events.len(),
{
    if events.len() > 0 {
        let front = events.drop_last();
        assert forall|k: int| 0 <= k < front.len() implies holds(#[trigger] front[k]) == (k < n) by {
            assert(events[k] == front[k]);
        }
        lemma_prefix_count(front, holds, n);
        assert(events[events.len() - 1] == events.last());
    }
}

/// The sources of the events of a list that have a property.
pub open spec fn sources_where(
    events: Seq<EventModel>,
    holds: spec_fn(EventModel) -> bool,
) -> Set<Seq<char>> {
    Set::new(
        |s: Seq<char>|
            exists|k: int|
                0 <= k < events.len() && holds(#[trigger] events[k]) && events[k].source_ip == s,
    )
}

/// A request for the path under observation.
pub open spec fn on_path(e: EventModel) -> bool {
    e.path == VOLUMETRIC_CONCENTRATION_PATH@
}

/// A source in one of the first seven blocks of addresses.
pub open spec fn in_leading_block(source: Seq<char>) -> bool {
    exists|third: int, last: int|
        0 <= third < 7 && 0 <= last && source == #[trigger] benchmark_address(third, last)
}

/// A request in the busiest minute.
pub open spec fn in_burst(config: GeneratorConfig, e: EventModel) -> bool {
    (e.timestamp - config.start_timestamp_ms) / 60_000 == 30
}

proof fn lemma_path(config: GeneratorConfig, k: int)
    requires
        0 <= k < VOLUMETRIC_CONCENTRATION_EVENTS,
    ensures
        on_path(volume_event(config, k)) == (k < 12_000),
{
    if k >= 12_000 {
        reveal_strlit("/synthetic/background/");
        reveal_strlit("/synthetic/volume-target");
        let path = volume_event(config, k).path;
        assert(path[11] == 'b');
        assert(VOLUMETRIC_CONCENTRATION_PATH@[11] == 'v');
    }
}

proof fn lemma_octets(i: int)
    requires
        0 <= i < 350,
    ensures
        0 <= focus_octets(i).0 < 30,
        0 < focus_octets(i).1 <= 12,
        focus_octets(i).0 < 7 <==> i < 84,
{
}

proof fn lemma_focus_source(k: int)
    requires
        0 <= k < 12_000,
    ensures
        0 <= focus_source(k) < 350,
        focus_source(k) < 84 <==> k < 6_600,
{
}

proof fn lemma_leading(config: GeneratorConfig, k: int)
    requires
        0 <= k < 12_000,
    ensures
        in_leading_block(volume_event(config, k).source_ip) == (k < 6_600),
{
    let octets = focus_octets(focus_source(k));
    let source = volume_event(config, k).source_ip;
    lemma_focus_source(k);
    lemma_octets(focus_source(k));
    assert(source == benchmark_address(octets.0, octets.1));
    if in_leading_block(source) {
        let (third, last) = choose|third: int, last: int|
            0 <= third < 7 && 0 <= last && source == #[trigger] benchmark_address(third, last);
        lemma_address_is_unique(octets, (third, last));
    }
}

proof fn lemma_burst(config: GeneratorConfig, k: int)
    requires
        0 <= k < VOLUMETRIC_CONCENTRATION_EVENTS,
    ensures
        in_burst(config, volume_event(config, k)) == (k < 5_000),
{
    let second = (k + config.seed) % 60;
    assert(0 <= second < 60);
    let e = volume_event(config, k);
    assert(e.timestamp - config.start_timestamp_ms == volume_minute(k) * 60_000 + second * 1000);
    assert((volume_minute(k) * 60_000 + second * 1000) / 60_000 == volume_minute(k));
}

/// The first request of a busy source.
spec fn first_request(i: int) -> int {
    if i < 10 {
        i * 400
    } else if i < 20 {
        4000 + (i - 10) * 36
    } else if i < 84 {
        4360 + (i - 20) * 35
    } else if i < 164 {
        6600 + (i - 84) * 21
    } else {
        8280 + (i - 164) * 20
    }
}

proof fn lemma_first_request(i: int)
    requires
        0 <= i < 350,
    ensures
        0 <= first_request(i) < 12_000,
        focus_source(first_request(i)) == i,
{
}

spec fn busy_address(i: int) -> Seq<char> {
    benchmark_address(focus_octets(i).0, focus_octets(i).1)
}

/// The last two numbers of the address of each source, the busy ones first.
spec fn octets_of(i: int) -> (int, int) {
    if i < 350 {
        focus_octets(i)
    } else {
        (100 + (i - 350) / 254, (i - 350) % 254 + 1)
    }
}

spec fn address_of(i: int) -> Seq<char> {
    benchmark_address(octets_of(i).0, octets_of(i).1)
}

proof fn lemma_octets_of(i: int)
    requires
        0 <= i < 24_000,
    ensures
        octets_of(i).0 >= 0,
        octets_of(i).1 >= 0,
        octets_of(i).0 >= 100 <==> i >= 350,
{
    if i < 350 {
        lemma_octets(i);
    }
}

proof fn lemma_addresses_differ(i: int, j: int)
    requires
        0 <= i < j < 24_000,
    ensures
        address_of(i) != address_of(j),
{
    lemma_octets_of(i);
    lemma_octets_of(j);
    if address_of(i) == address_of(j) {
        lemma_address_is_unique(octets_of(i), octets_of(j));
        if j < 350 {
            focus_sources_are_distinct(i, j);
        }
    }
}

/// The source of a request of the volume profile.
spec fn source_number(config: GeneratorConfig, k: int) -> int {
    if k < 12_000 {
        focus_source(k)
    } else {
        350 + (k - 12_000 + config.seed as int % 23_650) % 23_650
    }
}

proof fn lemma_source_number(config: GeneratorConfig, k: int)
    requires
        0 <= k < VOLUMETRIC_CONCENTRATION_EVENTS,
    ensures
        0 <= source_number(config, k) < 24_000,
        volume_event(config, k).source_ip == address_of(source_number(config, k)),
{
    if k < 12_000 {
        lemma_focus_source(k);
    }
}

/// A request of a source.
spec fn request_of(config: GeneratorConfig, i: int) -> int {
    let shift = config.seed as int % 23_650;
    if i < 350 {
        first_request(i)
    } else if i - 350 >= shift {
        12_000 + i - 350 - shift
    } else {
        12_000 + i - 350 - shift + 23_650
    }
}

proof fn lemma_request_of(config: GeneratorConfig, i: int)
    requires
        0 <= i < 24_000,
    ensures
        0 <= request_of(config, i) < VOLUMETRIC_CONCENTRATION_EVENTS,
        source_number(config, request_of(config, i)) == i,
{
    if i < 350 {
        lemma_first_request(i);
    }
}

proof fn lemma_busy_sources(config: GeneratorConfig, events: Seq<EventModel>)
    requires
        events.len() == VOLUMETRIC_CONCENTRATION_EVENTS,
        forall|k: int| 0 <= k < events.len() ==> #[trigger] events[k] == volume_event(config, k),
    ensures
        sources_where(events, |e: EventModel| on_path(e)) == Seq::new(
            350,
            |i: int| busy_address(i),
        ).to_set(),
        Seq::new(350, |i: int| busy_address(i)).no_duplicates(),
{
    let list = Seq::new(350, |i: int| busy_address(i));
    let set = sources_where(events, |e: EventModel| on_path(e));
    assert forall|i: int, j: int| 0 <= i < list.len() && 0 <= j < list.len() && i != j implies list[i]
        != list[j] by {
        lemma_octets(i);
        lemma_octets(j);
        if list[i] == list[j] {
            lemma_address_is_unique(focus_octets(i), focus_octets(j));
            if i < j {
                focus_sources_are_distinct(i, j);
            } else {
                focus_sources_are_distinct(j, i);
            }
        }
    }
    assert forall|s: Seq<char>| set.contains(s) == list.to_set().contains(s) by {
        if set.contains(s) {
            let k = choose|k: int|
                0 <= k < events.len() && on_path(#[trigger] events[k]) && events[k].source_ip == s;
            lemma_path(config, k);
            lemma_focus_source(k);
            assert(list[focus_source(k)] == s);
        }
        if list.to_set().contains(s) {
            let i = list.index_of(s);
            assert(list[i] == s);
            lemma_first_request(i);
            let k = first_request(i);
            lemma_path(config, k);
            assert(on_path(events[k]) && events[k].source_ip == s);
        }
    }
    assert(set =~= list.to_set());
}

proof fn lemma_all_sources(config: GeneratorConfig, events: Seq<EventModel>)
    requires
        events.len() == VOLUMETRIC_CONCENTRATION_EVENTS,
        forall|k: int| 0 <= k < events.len() ==> #[trigger] events[k] == volume_event(config, k),
    ensures
        sources_where(events, |e: EventModel| true).finite(),
        sources_where(events, |e: EventModel| true).len() == VOLUMETRIC_CONCENTRATION_SOURCE_IPS,
{
    let list = Seq::new(VOLUMETRIC_CONCENTRATION_SOURCE_IPS as nat, |i: int| address_of(i));
    let all = |e: EventModel| true;
    let set = sources_where(events, all);
    assert forall|i: int, j: int| 0 <= i < list.len() && 0 <= j < list.len() && i != j implies list[i]
        != list[j] by {
        if i < j {
            lemma_addresses_differ(i, j);
        } else {
            lemma_addresses_differ(j, i);
        }
    }
    assert forall|s: Seq<char>| set.contains(s) == list.to_set().contains(s) by {
        if set.contains(s) {
            let k = choose|k: int|
                0 <= k < events.len() && all(#[trigger] events[k]) && events[k].source_ip == s;
            lemma_source_number(config, k);
            assert(list[source_number(config, k)] == s);
        }
        if list.to_set().contains(s) {
            let i = list.index_of(s);
            assert(list[i] == s);
            lemma_request_of(config, i);
            let k = request_of(config, i);
            lemma_source_number(config, k);
            assert(all(events[k]) && events[k].source_ip == s);
        }
    }
    assert(set =~= list.to_set());
    list.unique_seq_to_set();
}

/// The volume profile keeps its documented shape: twelve thousand of its requests are for one
/// path, from 350 sources, and 55 % of these come from seven blocks of addresses. It has 24,000
/// sources in all, and five thousand requests fall into one minute.
pub proof fn volume_profile_keeps_its_shape(config: GeneratorConfig, events: Seq<EventModel>)
    requires
        events.len() == VOLUMETRIC_CONCENTRATION_EVENTS,
        forall|k: int| 0 <= k < events.len() ==> #[trigger] events[k] == volume_event(config, k),
    ensures
        count_where(events, |e: EventModel| on_path(e)) == 12_000,
        sources_where(events, |e: EventModel| on_path(e)).len() == 350,
        count_where(events, |e: EventModel| on_path(e) && in_leading_block(e.source_ip)) == 6_600,
        sources_where(events, |e: EventModel| true).len() == VOLUMETRIC_CONCENTRATION_SOURCE_IPS,
        count_where(events, |e: EventModel| in_burst(config, e)) == 5_000,
{
    assert forall|k: int| 0 <= k < events.len() implies on_path(#[trigger] events[k]) == (k
        < 12_000) && (on_path(events[k]) && in_leading_block(events[k].source_ip)) == (k < 6_600)
        && in_burst(config, events[k]) == (k < 5_000) by {
        lemma_path(config, k);
        lemma_burst(config, k);
        if k < 12_000 {
            lemma_leading(config, k);
        }
    }
    lemma_prefix_count(events, |e: EventModel| on_path(e), 12_000);
    lemma_prefix_count(
        events,
        |e: EventModel| on_path(e) && in_leading_block(e.source_ip),
        6_600,
    );
    lemma_prefix_count(events, |e: EventModel| in_burst(config, e), 5_000);
    lemma_busy_sources(config, events);
    Seq::new(350, |i: int| busy_address(i)).unique_seq_to_set();
    lemma_all_sources(config, events);
}

} // verus!
