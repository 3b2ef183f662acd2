//! What is observed of declared crawlers, and where their addresses lie.

use crate::bot_ranges::{
    declares, entry_network, peer_of, published, with_event, Observed, ObservedModel,
    OperatorRanges, Peer,
};
use crate::candidate_laws::a_text_contains_its_parts;
use crate::event::WebEvent;
use crate::json::{field_of, JsonModel};
use crate::network::{network_display, parsed_address, parsed_network, Network};
use crate::text::lower;
use vstd::prelude::*;

verus! {

/// A user agent declares an operator where it holds one of the operator's patterns, whatever the
/// case of the letters.
pub proof fn an_agent_declares_what_it_holds(agent: Seq<char>, patterns: Seq<Seq<char>>)
    ensures
        declares(agent, patterns) == exists|i: int, a: Seq<char>, b: Seq<char>|
            0 <= i < patterns.len() && lower(agent) == #[trigger] (a + lower(patterns[i]) + b),
{
    if declares(agent, patterns) {
        let i = choose|i: int|
            0 <= i < patterns.len() && crate::text::contains_text(
                lower(agent),
                lower(#[trigger] patterns[i]),
            );
        a_text_contains_its_parts(lower(agent), lower(patterns[i]));
        let (a, b) = choose|a: Seq<char>, b: Seq<char>|
            lower(agent) == #[trigger] (a + lower(patterns[i]) + b);
        assert(lower(agent) == a + lower(patterns[i]) + b);
    }
    if exists|i: int, a: Seq<char>, b: Seq<char>|
        0 <= i < patterns.len() && lower(agent) == #[trigger] (a + lower(patterns[i]) + b) {
        let (i, a, b) = choose|i: int, a: Seq<char>, b: Seq<char>|
            0 <= i < patterns.len() && lower(agent) == #[trigger] (a + lower(patterns[i]) + b);
        a_text_contains_its_parts(lower(agent), lower(patterns[i]));
    }
}

/// The peer of a request lies inside published ranges where its connection address is in one of
/// them, outside where it is in none, and is unavailable where there is no readable address.
pub proof fn peers_lie_inside_where_a_range_holds_them(e: WebEvent, ranges: Seq<Network>)
    ensures
        match e.source_ip {
            None => peer_of(e, ranges) == Peer::Unavailable,
            Some(ip) => match parsed_address(ip@) {
                None => peer_of(e, ranges) == Peer::Unavailable,
                Some(address) => {
                    let held = exists|i: int|
                        0 <= i < ranges.len() && (#[trigger] ranges[i]).holds(address);
                    &&& held ==> peer_of(e, ranges) == Peer::Inside(ip@)
                    &&& !held ==> peer_of(e, ranges) == Peer::Outside(ip@)
                },
            },
        },
{
}

/// An address is in a network where both are of one family and their leading bits are the same,
/// as many as the prefix has; a prefix of no bits holds every address of the family, and a whole
/// one only the address itself.
pub proof fn networks_hold_by_their_prefix(n: Network, a: crate::network::Address)
    requires
        n.wf(),
        a.wf(),
    ensures
        n.holds(a) ==> n.v4 == a.v4,
        n.prefix == 0 ==> n.holds(a) == (n.v4 == a.v4),
        n.v4 && n.prefix == 32 ==> n.holds(a) == (a.v4 && a.bits == n.bits),
        !n.v4 && n.prefix == 128 ==> n.holds(a) == (!a.v4 && a.bits == n.bits),
        n.v4 && n.prefix == 24 && a.v4 ==> n.holds(a) == (a.bits as int / 256 == n.bits as int / 256),
        n.v4 && n.prefix == 16 && a.v4 ==> n.holds(a) == (a.bits as int / 65536 == n.bits as int
            / 65536),
{
    crate::network::lemma_widths();
    vstd::arithmetic::power2::lemma2_to64();
    if n.prefix == 0 && n.v4 == a.v4 {
        let whole = n.block() as int;
        assert(a.bits as int / whole == 0) by {
            vstd::arithmetic::div_mod::lemma_basic_div(a.bits as int, whole);
        }
        assert(n.bits as int / whole == 0) by {
            vstd::arithmetic::div_mod::lemma_basic_div(n.bits as int, whole);
        }
    }
}

/// The operators of a list that are not one another.
pub open spec fn distinct(operators: Seq<OperatorRanges>) -> bool {
    forall|i: int, j: int|
        0 <= i < j < operators.len() ==> (#[trigger] operators[i]).id != (#[trigger] operators[j]).id
}

proof fn lemma_untouched(
    m: ObservedModel,
    operators: Seq<OperatorRanges>,
    e: WebEvent,
    n: nat,
    id: Seq<char>,
)
    requires
        n <= operators.len(),
        forall|i: int| 0 <= i < n ==> (#[trigger] operators[i]).id != id,
    ensures
        with_event(m, operators, e, n).dom().contains(id) == m.dom().contains(id),
        m.dom().contains(id) ==> with_event(m, operators, e, n)[id] == m[id],
    decreases n,
{
    if n > 0 {
        assert(operators[n - 1].id != id);
        lemma_untouched(m, operators, e, (n - 1) as nat, id);
    }
}

/// An event is counted for an operator where its user agent declares it, by where its peer lies
/// in the ranges of that operator, and for no other operator.
pub proof fn events_are_counted_for_declared_operators(
    m: ObservedModel,
    operators: Seq<OperatorRanges>,
    e: WebEvent,
    n: nat,
    k: int,
)
    requires
        distinct(operators),
        0 <= k < n <= operators.len(),
    ensures
        ({
            let o = operators[k];
            let after = with_event(m, operators, e, n);
            let before = if m.dom().contains(o.id) {
                m[o.id]
            } else {
                Observed::none(o.name)
            };
            if e.user_agent is Some && declares(e.user_agent.unwrap()@, o.patterns) {
                after.dom().contains(o.id) && after[o.id] == before.with(peer_of(e, o.ranges))
            } else {
                after.dom().contains(o.id) == m.dom().contains(o.id) && (m.dom().contains(o.id)
                    ==> after[o.id] == m[o.id])
            }
        }),
    decreases n,
{
    let o = operators[k];
    if k == n - 1 {
        assert forall|i: int| 0 <= i < n - 1 implies (#[trigger] operators[i]).id != o.id by {
            assert(operators[i].id != operators[k].id);
        }
        lemma_untouched(m, operators, e, (n - 1) as nat, o.id);
    } else {
        events_are_counted_for_declared_operators(m, operators, e, (n - 1) as nat, k);
        assert(operators[k].id != operators[n - 1].id);
    }
}

/// One more declared request counts once, where its peer lies: inside with its address among
/// those seen inside, outside with one more request of its address, or unavailable.
pub proof fn declared_requests_count_where_they_lie(m: Observed, ip: Seq<char>)
    ensures
        m.with(Peer::Inside(ip)).inside == m.inside + 1,
        m.with(Peer::Inside(ip)).inside_sources.contains(ip),
        m.with(Peer::Inside(ip)).outside == m.outside,
        m.with(Peer::Inside(ip)).unavailable == m.unavailable,
        m.with(Peer::Outside(ip)).outside == m.outside + 1,
        m.with(Peer::Outside(ip)).outside_sources.dom().contains(ip),
        m.outside_sources.dom().contains(ip) ==> m.with(Peer::Outside(ip)).outside_sources[ip]
            == m.outside_sources[ip] + 1,
        !m.outside_sources.dom().contains(ip) ==> m.with(Peer::Outside(ip)).outside_sources[ip]
            == 1,
        m.with(Peer::Outside(ip)).inside == m.inside,
        m.with(Peer::Unavailable).unavailable == m.unavailable + 1,
        m.with(Peer::Unavailable).inside == m.inside,
        m.with(Peer::Unavailable).outside == m.outside,
        m.with(Peer::Unavailable).declared == m.declared + 1,
        m.with(Peer::Inside(ip)).declared == m.declared + 1,
        m.with(Peer::Outside(ip)).declared == m.declared + 1,
{
}

/// A published list gives the ranges of exactly its readable entries, each as it is written, and
/// counts the others as invalid. An entry names an IPv4 prefix or else an IPv6 prefix.
pub proof fn published_ranges_are_those_of_the_entries(entries: Seq<JsonModel>, text: Seq<char>)
    ensures
        published(entries).ranges.finite(),
        published(entries).ranges.contains(text) == exists|i: int|
            0 <= i < entries.len() && entry_network(#[trigger] entries[i]) is Some
                && network_display(entry_network(entries[i]).unwrap()) == text,
        published(entries).invalid == entries.filter(
            |entry: JsonModel| entry_network(entry) is None,
        ).len(),
    decreases entries.len(),
{
    reveal(Seq::filter);
    if entries.len() > 0 {
        let before = entries.drop_last();
        published_ranges_are_those_of_the_entries(before, text);
        assert(entries[entries.len() - 1] == entries.last());
        if exists|i: int|
            0 <= i < before.len() && entry_network(#[trigger] before[i]) is Some
                && network_display(entry_network(before[i]).unwrap()) == text {
            let i = choose|i: int|
                0 <= i < before.len() && entry_network(#[trigger] before[i]) is Some
                    && network_display(entry_network(before[i]).unwrap()) == text;
            assert(entries[i] == before[i]);
        }
        if exists|i: int|
            0 <= i < entries.len() && entry_network(#[trigger] entries[i]) is Some
                && network_display(entry_network(entries[i]).unwrap()) == text {
            let i = choose|i: int|
                0 <= i < entries.len() && entry_network(#[trigger] entries[i]) is Some
                    && network_display(entry_network(entries[i]).unwrap()) == text;
            if i < before.len() {
                assert(before[i] == entries[i]);
            }
        }
    }
}

/// What an entry of a published list names, by its fields.
pub proof fn entries_name_a_prefix(entry: JsonModel, text: Seq<char>)
    ensures
        field_of(entry, "ipv4Prefix"@) == Some(JsonModel::Text(text)) ==> entry_network(entry)
            == parsed_network(text),
        field_of(entry, "ipv4Prefix"@) is None && field_of(entry, "ipv6Prefix"@) == Some(
            JsonModel::Text(text),
        ) ==> entry_network(entry) == parsed_network(text),
        field_of(entry, "ipv4Prefix"@) is None && field_of(entry, "ipv6Prefix"@) is None
            ==> entry_network(entry) is None,
{
}

} // verus!
