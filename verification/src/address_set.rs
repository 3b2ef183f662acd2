//! Frozen private address membership. It says nothing of identity or ownership.

use crate::evaluation::PathProvenance;
use crate::network::{parsed_address, parsed_network, width, Address, Network};
use crate::text::{
    chars_of, find_char, first_of, is_digit, lemma_first_of, line_list, lines, matches_at, occurs_at,
    opt_text, push_decimal, same_text, split, split_on, starts_with, starts_with_text, text_between, texts,
    trim, trim_text,
};
use vstd::prelude::*;
use vstd::string::*;

verus! {

broadcast use vstd::string::group_string_axioms;

pub const ADDRESS_SET_NOTE: &'static str =
    "Frozen source-address membership is operator-selected context, not identity, ownership, intent, attack, or abuse. Replay covers only this snapshot. Remote IP sets must contain exactly the recorded subsets and use the same observed-peer semantics; Shenron does not verify or modify remote sets. Review legitimate shared-cloud users and crawlers before any manual policy change. COUNT only; no deployment.";

#[derive(Clone, Debug)]
pub struct FrozenAddressSet {
    pub provenance: PathProvenance,
    /// Without bits after the prefix, each once, in order.
    pub networks: Vec<Network>,
    pub invalid_records: u64,
    pub duplicate_records: u64,
    pub comment_or_empty_records: u64,
    pub ipv4_arn: Option<String>,
    pub ipv6_arn: Option<String>,
}

/// What a line of an address list is.
pub enum Entry {
    Blank,
    Invalid,
    Listed(Network),
}

/// The part of a line before a comment, without white space around it.
pub open spec fn value_of(line: Seq<char>) -> Seq<char> {
    trim_text(line.take(first_of(line, '#')))
}

/// What a line stands for: a network or an address, kept without bits after the prefix.
pub open spec fn entry_of(line: Seq<char>) -> Entry {
    let value = value_of(line);
    if value.len() == 0 {
        Entry::Blank
    } else {
        match parsed_network(value) {
            Some(n) => Entry::Listed(n.truncated()),
            None => match parsed_address(value) {
                Some(a) => Entry::Listed(
                    (Network {
                        v4: a.v4,
                        bits: a.bits,
                        prefix: width(a.v4) as u8,
                    }).truncated(),
                ),
                None => Entry::Invalid,
            },
        }
    }
}

/// What the lines of an address list come to.
pub struct ListModel {
    pub networks: Set<Network>,
    pub invalid: nat,
    pub duplicates: nat,
    pub blank: nat,
}

impl ListModel {
    pub open spec fn none() -> ListModel {
        ListModel { networks: Set::empty(), invalid: 0, duplicates: 0, blank: 0 }
    }

    pub open spec fn with(self, entry: Entry) -> ListModel {
        match entry {
            Entry::Blank => ListModel { blank: self.blank + 1, ..self },
            Entry::Invalid => ListModel { invalid: self.invalid + 1, ..self },
            Entry::Listed(n) => if self.networks.contains(n) {
                ListModel { duplicates: self.duplicates + 1, ..self }
            } else {
                ListModel { networks: self.networks.insert(n), ..self }
            },
        }
    }
}

pub open spec fn list_of(lines: Seq<Seq<char>>) -> ListModel
    decreases lines.len(),
{
    if lines.len() == 0 {
        ListModel::none()
    } else {
        list_of(lines.drop_last()).with(entry_of(lines.last()))
    }
}

/// Every line is a network, a repetition, a comment or invalid.
pub proof fn every_line_is_accounted_for(lines: Seq<Seq<char>>)
    ensures
        ({
            let m = list_of(lines);
            &&& m.networks.finite()
            &&& m.networks.len() + m.invalid + m.duplicates + m.blank == lines.len()
        }),
    decreases lines.len(),
{
    if lines.len() > 0 {
        every_line_is_accounted_for(lines.drop_last());
    }
}

/// Whether networks stand in strictly increasing order.
pub open spec fn in_order(list: Seq<Network>) -> bool {
    forall|i: int, j: int|
        0 <= i < j < list.len() ==> (#[trigger] list[i]).before(#[trigger] list[j])
}

pub open spec fn all_well_formed(list: Seq<Network>) -> bool {
    forall|i: int| 0 <= i < list.len() ==> (#[trigger] list[i]).wf()
}

/// Whether a list is the given set of networks in order.
pub open spec fn lists_networks(list: Seq<Network>, networks: Set<Network>) -> bool {
    in_order(list) && list.to_set() == networks
}

/// A set of networks is listed in order in one way only.
pub proof fn ordered_networks_are_unique(a: Seq<Network>, b: Seq<Network>)
    requires
        in_order(a),
        in_order(b),
        a.to_set() == b.to_set(),
    ensures
        a == b,
    decreases a.len(),
{
    if a.len() == 0 {
        if b.len() > 0 {
            assert(b.to_set().contains(b[0]));
            assert(a.to_set().contains(b[0]));
        }
        assert(a =~= b);
    } else {
        assert(a.to_set().contains(a[a.len() - 1]));
        assert(b.contains(a.last()));
        let k = b.index_of(a.last());
        assert(b[k] == a.last());
        assert(b.to_set().contains(b[b.len() - 1]));
        assert(a.contains(b.last()));
        let m = a.index_of(b.last());
        assert(a[m] == b.last());
        if k < b.len() - 1 {
            assert(b[k].before(b[b.len() - 1]));
            if m < a.len() - 1 {
                assert(a[m].before(a[a.len() - 1]));
            }
        }
        assert(a.last() == b.last());
        let x = a.drop_last();
        let y = b.drop_last();
        assert(x.to_set() =~= y.to_set()) by {
            assert forall|n: Network| x.to_set().contains(n) == y.to_set().contains(n) by {
                if x.to_set().contains(n) {
                    let i = x.index_of(n);
                    assert(a[i] == n);
                    assert(a[i].before(a[a.len() - 1]));
                    assert(a.to_set().contains(n));
                    assert(b.contains(n));
                    let j = b.index_of(n);
                    assert(b[j] == n);
                    assert(y[j] == n);
                }
                if y.to_set().contains(n) {
                    let i = y.index_of(n);
                    assert(b[i] == n);
                    assert(b[i].before(b[b.len() - 1]));
                    assert(b.to_set().contains(n));
                    assert(a.contains(n));
                    let j = a.index_of(n);
                    assert(a[j] == n);
                    assert(x[j] == n);
                }
            }
        }
        ordered_networks_are_unique(x, y);
        assert(a =~= x.push(a.last()));
        assert(b =~= y.push(b.last()));
    }
}

/// Why an address list was refused.
#[derive(Clone, Debug)]
pub enum AddressSetError {
    NoNetworks { invalid_records: u64, comment_or_empty_records: u64 },
    Changed,
}

impl AddressSetError {
    pub open spec fn text(self) -> Seq<char> {
        match self {
            AddressSetError::NoNetworks { invalid_records, comment_or_empty_records } =>
                "address set has no usable networks (invalid records: "@
                    + crate::text::decimal(invalid_records as nat) + "; comment/empty records: "@
                    + crate::text::decimal(comment_or_empty_records as nat) + ")"@,
            AddressSetError::Changed =>
                "frozen source-address snapshot or normalized contents changed; rebuild and replay the candidate"@,
        }
    }

    pub fn message(&self) -> (r: String)
        ensures
            r@ == self.text(),
    {
        match self {
            AddressSetError::NoNetworks { invalid_records, comment_or_empty_records } => {
                let mut r = "address set has no usable networks (invalid records: ".to_owned();
                push_decimal(&mut r, *invalid_records);
                r.append("; comment/empty records: ");
                push_decimal(&mut r, *comment_or_empty_records);
                r.append(")");
                r
            },
            AddressSetError::Changed =>
                "frozen source-address snapshot or normalized contents changed; rebuild and replay the candidate".to_owned(),
        }
    }
}

enum Parsed {
    Blank,
    Invalid,
    Listed(Network),
}

fn read_entry(line: &str) -> (r: Parsed)
    ensures
        match entry_of(line@) {
            Entry::Blank => r is Blank,
            Entry::Invalid => r is Invalid,
            Entry::Listed(n) => r == Parsed::Listed(n) && n.wf(),
        },
{
    let chars = chars_of(line);
    let end = find_char(&chars, '#', 0);
    proof {
        assert(line@.skip(0) =~= line@);
        lemma_first_of(line@, '#');
        assert(line@.subrange(0, end as int) =~= line@.take(end as int));
    }
    let front = text_between(&chars, 0, end);
    let value = trim(front.as_str());
    if value.as_str().is_empty() {
        return Parsed::Blank;
    }
    match Network::parse(value.as_str()) {
        Some(n) => Parsed::Listed(n.trunc()),
        None => match Address::parse(value.as_str()) {
            Some(a) => Parsed::Listed(single_network(&a).trunc()),
            None => Parsed::Invalid,
        },
    }
}

fn single_network(a: &Address) -> (r: Network)
    requires
        a.wf(),
    ensures
        r == (Network { v4: a.v4, bits: a.bits, prefix: width(a.v4) as u8 }),
        r.wf(),
{
    Network::single(a)
}

/// Where a network stands in an increasing list, or where it would have to be put.
fn search(list: &Vec<Network>, network: &Network) -> (r: (bool, usize))
    requires
        in_order(list@),
    ensures
        r.1 <= list@.len(),
        r.0 == list@.to_set().contains(*network),
        !r.0 ==> forall|i: int| 0 <= i < r.1 ==> (#[trigger] list@[i]).before(*network),
        !r.0 ==> forall|i: int|
            r.1 <= i < list@.len() ==> network.before(#[trigger] list@[i]),
{
    let mut low: usize = 0;
    let mut high: usize = list.len();
    while low < high
        invariant
            in_order(list@),
            low <= high <= list@.len(),
            forall|i: int| 0 <= i < low ==> (#[trigger] list@[i]).before(*network),
            forall|i: int| high <= i < list@.len() ==> network.before(#[trigger] list@[i]),
        decreases high - low,
    {
        let middle: usize = low + (high - low) / 2;
        if list[middle] == *network {
            assert(list@.contains(*network));
            return (true, middle);
        }
        if list[middle].is_before(network) {
            assert forall|i: int| 0 <= i < middle + 1 implies (#[trigger] list@[i]).before(
                *network,
            ) by {
                if i < middle {
                    assert(list@[i].before(list@[middle as int]));
                }
            }
            low = middle + 1;
        } else {
            assert forall|i: int| middle <= i < list@.len() implies network.before(
                #[trigger] list@[i],
            ) by {
                if i > middle {
                    assert(list@[middle as int].before(list@[i]));
                }
            }
            high = middle;
        }
    }
    assert(!list@.contains(*network)) by {
        if list@.contains(*network) {
            let i = list@.index_of(*network);
            assert(list@[i] == *network);
            if i < low {
                assert(list@[i].before(*network));
            } else {
                assert(network.before(list@[i]));
            }
        }
    }
    (false, low)
}

/// Adds a network to an increasing list; returns whether it is new.
fn insert_network(list: &mut Vec<Network>, network: Network) -> (r: bool)
    requires
        in_order(old(list)@),
        all_well_formed(old(list)@),
        network.wf(),
    ensures
        in_order(final(list)@),
        r == !old(list)@.to_set().contains(network),
        final(list)@.to_set() == old(list)@.to_set().insert(network),
        final(list)@.len() == old(list)@.len() + if r {
            1int
        } else {
            0int
        },
        all_well_formed(final(list)@),
{
    let ghost before = list@;
    let found = search(list, &network);
    if found.0 {
        assert(before.to_set().insert(network) =~= before.to_set());
        return false;
    }
    let ghost at = found.1 as int;
    list.insert(found.1, network);
    proof {
        let after = list@;
        assert(after == before.insert(at, network));
        assert forall|i: int, j: int| 0 <= i < j < after.len() implies (
        #[trigger] after[i]).before(#[trigger] after[j]) by {
            if i < at && j == at {
                assert(before[i].before(network));
            } else if i == at {
                assert(network.before(before[j - 1]));
            } else if i < at && j > at {
                assert(before[i].before(before[j - 1]));
            } else if i > at {
                assert(before[i - 1].before(before[j - 1]));
            } else {
                assert(before[i].before(before[j]));
            }
        }
        assert(after.to_set() =~= before.to_set().insert(network)) by {
            assert forall|n: Network| after.to_set().contains(n) == before.to_set().insert(
                network,
            ).contains(n) by {
                if after.to_set().contains(n) {
                    let i = after.index_of(n);
                    if i < at {
                        assert(before[i] == n);
                    } else if i > at {
                        assert(before[i - 1] == n);
                    }
                }
                if before.to_set().contains(n) {
                    let i = before.index_of(n);
                    if i < at {
                        assert(after[i] == n);
                    } else {
                        assert(after[i + 1] == n);
                    }
                }
                assert(after[at] == network);
            }
        }
        assert forall|i: int| 0 <= i < after.len() implies (#[trigger] after[i]).wf() by {
            if i < at {
                assert(before[i].wf());
            } else if i > at {
                assert(before[i - 1].wf());
            }
        }
    }
    true
}

/// Whether a set is what an address list comes to.
pub open spec fn is_frozen(
    s: FrozenAddressSet,
    text: Seq<char>,
    provenance: PathProvenance,
    ipv4_arn: Option<Seq<char>>,
    ipv6_arn: Option<Seq<char>>,
) -> bool {
    let m = list_of(line_list(text));
    &&& s.provenance@ == provenance@
    &&& lists_networks(s.networks@, m.networks)
    &&& s.invalid_records == m.invalid
    &&& s.duplicate_records == m.duplicates
    &&& s.comment_or_empty_records == m.blank
    &&& opt_text(s.ipv4_arn) == ipv4_arn
    &&& opt_text(s.ipv6_arn) == ipv6_arn
}

/// The characters of a reference.
pub open spec fn reference_char(c: char) -> bool {
    is_alphanumeric(c) || c == ':' || c == '/' || c == '-' || c == '_'
}

pub open spec fn is_alphanumeric(c: char) -> bool {
    is_digit(c) || ('a' <= c && c <= 'z') || ('A' <= c && c <= 'Z')
}

pub open spec fn all_name_chars(s: Seq<char>) -> bool {
    forall|i: int|
        0 <= i < s.len() ==> is_alphanumeric(#[trigger] s[i]) || s[i] == '-' || s[i] == '_'
}

/// Whether a text is the reference of a WAFv2 IP set. Interpolation and control characters are
/// refused, as the text is written into configuration files.
pub open spec fn is_ip_set_arn(value: Seq<char>) -> bool {
    let parts = split_on(value, ':');
    let resource = split_on(parts[5], '/');
    &&& forall|i: int| 0 <= i < value.len() ==> reference_char(#[trigger] value[i])
    &&& parts.len() == 6
    &&& parts[0] == "arn"@
    &&& starts_with_text(parts[1], "aws"@)
    &&& parts[2] == "wafv2"@
    &&& parts[3].len() > 0
    &&& parts[4].len() == 12
    &&& crate::text::all_digits(parts[4])
    &&& resource.len() == 4
    &&& resource[0] == "regional"@ || resource[0] == "global"@
    &&& resource[1] == "ipset"@
    &&& resource[2].len() > 0 && all_name_chars(resource[2])
    &&& resource[3].len() > 0 && all_name_chars(resource[3])
}

fn alphanumeric(c: char) -> (r: bool)
    ensures
        r == is_alphanumeric(c),
{
    ('0' <= c && c <= '9') || ('a' <= c && c <= 'z') || ('A' <= c && c <= 'Z')
}

fn is_name(s: &str) -> (r: bool)
    ensures
        r == (s@.len() > 0 && all_name_chars(s@)),
{
    let chars = chars_of(s);
    let mut i: usize = 0;
    while i < chars.len()
        invariant
            chars@ == s@,
            i <= chars@.len(),
            forall|j: int|
                0 <= j < i ==> is_alphanumeric(#[trigger] s@[j]) || s@[j] == '-' || s@[j] == '_',
        decreases chars.len() - i,
    {
        let c = chars[i];
        if !(alphanumeric(c) || c == '-' || c == '_') {
            return false;
        }
        i = i + 1;
    }
    chars.len() > 0
}

fn is_number(s: &str) -> (r: bool)
    ensures
        r == (s@.len() == 12 && crate::text::all_digits(s@)),
{
    let chars = chars_of(s);
    let mut i: usize = 0;
    while i < chars.len()
        invariant
            chars@ == s@,
            i <= chars@.len(),
            forall|j: int| 0 <= j < i ==> is_digit(#[trigger] s@[j]),
        decreases chars.len() - i,
    {
        let c = chars[i];
        if !('0' <= c && c <= '9') {
            return false;
        }
        i = i + 1;
    }
    chars.len() == 12
}

pub fn valid_ip_set_arn(value: &str) -> (r: bool)
    ensures
        r == is_ip_set_arn(value@),
{
    let chars = chars_of(value);
    let mut i: usize = 0;
    while i < chars.len()
        invariant
            chars@ == value@,
            i <= chars@.len(),
            forall|j: int| 0 <= j < i ==> reference_char(#[trigger] value@[j]),
        decreases chars.len() - i,
    {
        let c = chars[i];
        if !(alphanumeric(c) || c == ':' || c == '/' || c == '-' || c == '_') {
            return false;
        }
        i = i + 1;
    }
    let parts = split(value, ':');
    let ghost p = split_on(value@, ':');
    if parts.len() != 6 {
        assert(p.len() != 6);
        return false;
    }
    assert(forall|k: int| 0 <= k < 6 ==> #[trigger] texts(parts@)[k] == parts@[k]@);
    assert(p[0] == parts@[0]@ && p[1] == parts@[1]@ && p[2] == parts@[2]@ && p[3] == parts@[3]@
        && p[4] == parts@[4]@ && p[5] == parts@[5]@);
    if !same_text(parts[0].as_str(), "arn") || !starts_with(parts[1].as_str(), "aws") || !same_text(
        parts[2].as_str(),
        "wafv2",
    ) || parts[3].as_str().is_empty() || !is_number(parts[4].as_str()) {
        return false;
    }
    let resource = split(parts[5].as_str(), '/');
    let ghost q = split_on(p[5], '/');
    if resource.len() != 4 {
        assert(q.len() != 4);
        return false;
    }
    assert(forall|k: int| 0 <= k < 4 ==> #[trigger] texts(resource@)[k] == resource@[k]@);
    assert(q[0] == resource@[0]@ && q[1] == resource@[1]@ && q[2] == resource@[2]@ && q[3]
        == resource@[3]@);
    (same_text(resource[0].as_str(), "regional") || same_text(resource[0].as_str(), "global"))
        && same_text(resource[1].as_str(), "ipset") && is_name(resource[2].as_str()) && is_name(
        resource[3].as_str(),
    )
}

/// The text before the first place where another stands; the whole text where it does not.
pub open spec fn text_until(s: Seq<char>, part: Seq<char>, from: int) -> Seq<char>
    decreases s.len() - from,
{
    if from >= s.len() || from < 0 {
        s
    } else if occurs_at(s, part, from) {
        s.take(from)
    } else {
        text_until(s, part, from + 1)
    }
}

fn scope_of(arn: &str) -> (r: String)
    ensures
        r@ == text_until(arn@, "/ipset/"@, 0),
{
    let chars = chars_of(arn);
    let part = chars_of("/ipset/");
    let mut i: usize = 0;
    while i < chars.len()
        invariant
            chars@ == arn@,
            part@ == "/ipset/"@,
            i <= chars@.len(),
            text_until(arn@, "/ipset/"@, 0) == text_until(arn@, "/ipset/"@, i as int),
        decreases chars.len() - i,
    {
        if matches_at(&chars, &part, i) {
            assert(arn@.subrange(0, i as int) =~= arn@.take(i as int));
            return text_between(&chars, 0, i);
        }
        i = i + 1;
    }
    arn.to_owned()
}

pub open spec fn any_v4(list: Seq<Network>) -> bool {
    exists|i: int| 0 <= i < list.len() && (#[trigger] list[i]).v4
}

pub open spec fn any_v6(list: Seq<Network>) -> bool {
    exists|i: int| 0 <= i < list.len() && !(#[trigger] list[i]).v4
}

pub open spec fn any_whole(list: Seq<Network>) -> bool {
    exists|i: int| 0 <= i < list.len() && (#[trigger] list[i]).prefix == 0
}

pub open spec fn usable_arn(arn: Option<String>) -> bool {
    arn matches Some(text) && is_ip_set_arn(text@)
}

/// Why a set cannot be expressed by AWS WAF IP sets.
pub open spec fn set_reasons(s: FrozenAddressSet) -> Seq<Seq<char>> {
    let list = s.networks@;
    let both = any_v4(list) && any_v6(list);
    let r0: Seq<Seq<char>> = seq![];
    let r1 = if any_whole(list) {
        r0.push("AWS WAF IP sets cannot faithfully represent /0 ranges"@)
    } else {
        r0
    };
    let r2 = if any_v4(list) && !usable_arn(s.ipv4_arn) {
        r1.push("IPv4 requires an operator-supplied WAFv2 IP set ARN"@)
    } else {
        r1
    };
    let r3 = if any_v6(list) && !usable_arn(s.ipv6_arn) {
        r2.push("IPv6 requires an operator-supplied WAFv2 IP set ARN"@)
    } else {
        r2
    };
    let r4 = if both && opt_text(s.ipv4_arn) == opt_text(s.ipv6_arn) {
        r3.push("IPv4 and IPv6 require distinct single-family IP sets"@)
    } else {
        r3
    };
    if both && s.ipv4_arn is Some && s.ipv6_arn is Some && text_until(
        s.ipv4_arn.unwrap()@,
        "/ipset/"@,
        0,
    ) != text_until(s.ipv6_arn.unwrap()@, "/ipset/"@, 0) {
        r4.push("IPv4 and IPv6 IP set references must share account, region, and scope"@)
    } else {
        r4
    }
}

fn push_reason(list: &mut Vec<String>, reason: &str)
    ensures
        texts(final(list)@) == texts(old(list)@).push(reason@),
{
    let ghost before = list@;
    list.push(reason.to_owned());
    assert(texts(list@) =~= texts(before).push(reason@));
}

fn arn_usable(arn: &Option<String>) -> (r: bool)
    ensures
        r == usable_arn(*arn),
{
    match arn {
        Some(text) => valid_ip_set_arn(text.as_str()),
        None => false,
    }
}

fn same_option(a: &Option<String>, b: &Option<String>) -> (r: bool)
    ensures
        r == (opt_text(*a) == opt_text(*b)),
{
    match (a, b) {
        (Some(x), Some(y)) => same_text(x.as_str(), y.as_str()),
        (None, None) => true,
        _ => false,
    }
}

fn copied(value: &Option<String>) -> (r: Option<String>)
    ensures
        r == *value,
{
    match value {
        Some(v) => Some(v.clone()),
        None => None,
    }
}

fn same_provenance(a: &PathProvenance, b: &PathProvenance) -> (r: bool)
    ensures
        r == (a@ == b@),
{
    let same_length = match (a.byte_length, b.byte_length) {
        (Some(x), Some(y)) => x == y,
        (None, None) => true,
        _ => false,
    };
    same_text(a.path.as_str(), b.path.as_str()) && same_length && same_option(&a.sha256, &b.sha256)
}

fn same_networks(a: &Vec<Network>, b: &Vec<Network>) -> (r: bool)
    ensures
        r == (a@ == b@),
{
    if a.len() != b.len() {
        return false;
    }
    let mut i: usize = 0;
    while i < a.len()
        invariant
            a@.len() == b@.len(),
            i <= a@.len(),
            forall|j: int| 0 <= j < i ==> a@[j] == b@[j],
        decreases a.len() - i,
    {
        if a[i] != b[i] {
            return false;
        }
        i = i + 1;
    }
    assert(a@ =~= b@);
    true
}

impl FrozenAddressSet {
    /// The networks of a set that was loaded are well formed.
    pub open spec fn wf(&self) -> bool {
        all_well_formed(self.networks@)
    }

    /// The set that an address list comes to, given the text of the list and what is known of its
    /// file. A list without a usable network is refused.
    pub fn load(
        text: &str,
        provenance: PathProvenance,
        ipv4_arn: Option<String>,
        ipv6_arn: Option<String>,
    ) -> (r: Result<Self, AddressSetError>)
        ensures
            match r {
                Ok(set) => set.wf() && list_of(line_list(text@)).networks.len() > 0 && is_frozen(
                    set,
                    text@,
                    provenance,
                    opt_text(ipv4_arn),
                    opt_text(ipv6_arn),
                ),
                Err(AddressSetError::NoNetworks { invalid_records, comment_or_empty_records }) => {
                    let m = list_of(line_list(text@));
                    m.networks.len() == 0 && invalid_records == m.invalid
                        && comment_or_empty_records == m.blank
                },
                Err(AddressSetError::Changed) => false,
            },
    {
        let parts = lines(text);
        let ghost all = line_list(text@);
        let count = parts.len();
        assert(texts(parts@).len() == parts@.len());
        let mut networks: Vec<Network> = Vec::new();
        let mut invalid: u64 = 0;
        let mut duplicates: u64 = 0;
        let mut blank: u64 = 0;
        let mut i: usize = 0;
        assert(networks@.to_set() =~= Set::<Network>::empty());
        assert(all.take(0) =~= Seq::<Seq<char>>::empty());
        while i < count
            invariant
                count == parts@.len(),
                all == texts(parts@),
                i <= count,
                in_order(networks@),
                all_well_formed(networks@),
                list_of(all.take(i as int)) == (ListModel {
                    networks: networks@.to_set(),
                    invalid: invalid as nat,
                    duplicates: duplicates as nat,
                    blank: blank as nat,
                }),
                invalid <= i,
                duplicates <= i,
                blank <= i,
            decreases count - i,
        {
            let line = &parts[i];
            proof {
                assert(all[i as int] == line@);
                assert(all.take(i + 1).drop_last() =~= all.take(i as int));
                assert(all.take(i + 1).last() == line@);
            }
            match read_entry(line.as_str()) {
                Parsed::Blank => {
                    blank = blank + 1;
                },
                Parsed::Invalid => {
                    invalid = invalid + 1;
                },
                Parsed::Listed(n) => {
                    let ghost before = networks@;
                    if !insert_network(&mut networks, n) {
                        duplicates = duplicates + 1;
                        assert(before.to_set().insert(n) =~= before.to_set());
                    }
                },
            }
            i = i + 1;
        }
        proof {
            assert(all.take(i as int) =~= all);
            every_line_is_accounted_for(all);
            if networks@.len() > 0 {
                assert(networks@.to_set().contains(networks@[0]));
                vstd::set_lib::lemma_set_empty_equivalency_len(networks@.to_set());
            } else {
                assert(networks@.to_set() =~= Set::<Network>::empty());
            }
        }
        if networks.len() == 0 {
            return Err(
                AddressSetError::NoNetworks {
                    invalid_records: invalid,
                    comment_or_empty_records: blank,
                },
            );
        }
        Ok(
            FrozenAddressSet {
            provenance,
            networks,
            invalid_records: invalid,
            duplicate_records: duplicates,
            comment_or_empty_records: blank,
            ipv4_arn,
            ipv6_arn,
        },
        )
    }

    /// Whether the file of a set, read again, still comes to the set.
    pub fn validate_snapshot(&self, text: &str, provenance: PathProvenance) -> (r: Result<
        (),
        AddressSetError,
    >)
        ensures
            ({
                let m = list_of(line_list(text@));
                let unchanged = is_frozen(
                    *self,
                    text@,
                    provenance,
                    opt_text(self.ipv4_arn),
                    opt_text(self.ipv6_arn),
                );
                match r {
                    Ok(_) => m.networks.len() > 0 && unchanged,
                    Err(AddressSetError::Changed) => m.networks.len() > 0 && !unchanged,
                    Err(
                        AddressSetError::NoNetworks { invalid_records, comment_or_empty_records },
                    ) => m.networks.len() == 0 && invalid_records == m.invalid
                        && comment_or_empty_records == m.blank,
                }
            }),
    {
        let loaded = match FrozenAddressSet::load(
            text,
            provenance,
            copied(&self.ipv4_arn),
            copied(&self.ipv6_arn),
        ) {
            Ok(set) => set,
            Err(e) => {
                return Err(e);
            },
        };
        assert(is_frozen(
            loaded,
            text@,
            provenance,
            opt_text(self.ipv4_arn),
            opt_text(self.ipv6_arn),
        ));
        let same = same_provenance(&self.provenance, &loaded.provenance) && same_networks(
            &self.networks,
            &loaded.networks,
        ) && self.invalid_records == loaded.invalid_records && self.duplicate_records
            == loaded.duplicate_records && self.comment_or_empty_records
            == loaded.comment_or_empty_records && same_option(&self.ipv4_arn, &loaded.ipv4_arn)
            && same_option(&self.ipv6_arn, &loaded.ipv6_arn);
        proof {
            if lists_networks(self.networks@, list_of(line_list(text@)).networks) {
                ordered_networks_are_unique(self.networks@, loaded.networks@);
            }
        }
        if same {
            Ok(())
        } else {
            Err(AddressSetError::Changed)
        }
    }

    /// Whether a source address lies in one of the networks.
    pub fn matches(&self, source: &str) -> (r: bool)
        requires
            self.wf(),
        ensures
            r == (parsed_address(source@) matches Some(a) && exists|i: int|
                0 <= i < self.networks@.len() && (#[trigger] self.networks@[i]).holds(a)),
    {
        let address = match Address::parse(source) {
            Some(a) => a,
            None => {
                return false;
            },
        };
        let mut i: usize = 0;
        while i < self.networks.len()
            invariant
                self.wf(),
                address.wf(),
                parsed_address(source@) == Some(address),
                i <= self.networks@.len(),
                forall|j: int| 0 <= j < i ==> !(#[trigger] self.networks@[j]).holds(address),
            decreases self.networks.len() - i,
        {
            if self.networks[i].contains(&address) {
                return true;
            }
            i = i + 1;
        }
        false
    }

    pub fn has_v4(&self) -> (r: bool)
        ensures
            r == any_v4(self.networks@),
    {
        let mut i: usize = 0;
        while i < self.networks.len()
            invariant
                i <= self.networks@.len(),
                forall|j: int| 0 <= j < i ==> !(#[trigger] self.networks@[j]).v4,
            decreases self.networks.len() - i,
        {
            if self.networks[i].v4 {
                return true;
            }
            i = i + 1;
        }
        false
    }

    pub fn has_v6(&self) -> (r: bool)
        ensures
            r == any_v6(self.networks@),
    {
        let mut i: usize = 0;
        while i < self.networks.len()
            invariant
                i <= self.networks@.len(),
                forall|j: int| 0 <= j < i ==> (#[trigger] self.networks@[j]).v4,
            decreases self.networks.len() - i,
        {
            if !self.networks[i].v4 {
                return true;
            }
            i = i + 1;
        }
        false
    }

    fn has_whole(&self) -> (r: bool)
        ensures
            r == any_whole(self.networks@),
    {
        let mut i: usize = 0;
        while i < self.networks.len()
            invariant
                i <= self.networks@.len(),
                forall|j: int| 0 <= j < i ==> (#[trigger] self.networks@[j]).prefix != 0,
            decreases self.networks.len() - i,
        {
            if self.networks[i].prefix == 0 {
                return true;
            }
            i = i + 1;
        }
        false
    }

    /// The references of the families that the set has networks of.
    pub fn references(&self) -> (r: Vec<&str>)
        ensures
            ({
                let v4 = any_v4(self.networks@) && self.ipv4_arn is Some;
                let v6 = any_v6(self.networks@) && self.ipv6_arn is Some;
                if v4 && v6 {
                    r@.len() == 2 && r@[0]@ == self.ipv4_arn.unwrap()@ && r@[1]@
                        == self.ipv6_arn.unwrap()@
                } else if v4 {
                    r@.len() == 1 && r@[0]@ == self.ipv4_arn.unwrap()@
                } else if v6 {
                    r@.len() == 1 && r@[0]@ == self.ipv6_arn.unwrap()@
                } else {
                    r@.len() == 0
                }
            }),
    {
        let mut r: Vec<&str> = Vec::new();
        if let Some(arn) = &self.ipv4_arn {
            if self.has_v4() {
                r.push(arn.as_str());
            }
        }
        if let Some(arn) = &self.ipv6_arn {
            if self.has_v6() {
                r.push(arn.as_str());
            }
        }
        r
    }

    pub fn compatibility_reasons(&self) -> (r: Vec<String>)
        ensures
            texts(r@) == set_reasons(*self),
    {
        let mut reasons: Vec<String> = Vec::new();
        assert(texts(reasons@) =~= Seq::<Seq<char>>::empty());
        let v4 = self.has_v4();
        let v6 = self.has_v6();
        if self.has_whole() {
            push_reason(&mut reasons, "AWS WAF IP sets cannot faithfully represent /0 ranges");
        }
        if v4 && !arn_usable(&self.ipv4_arn) {
            push_reason(&mut reasons, "IPv4 requires an operator-supplied WAFv2 IP set ARN");
        }
        if v6 && !arn_usable(&self.ipv6_arn) {
            push_reason(&mut reasons, "IPv6 requires an operator-supplied WAFv2 IP set ARN");
        }
        if v4 && v6 && same_option(&self.ipv4_arn, &self.ipv6_arn) {
            push_reason(&mut reasons, "IPv4 and IPv6 require distinct single-family IP sets");
        }
        if v4 && v6 {
            if let (Some(a), Some(b)) = (&self.ipv4_arn, &self.ipv6_arn) {
                if !same_text(scope_of(a.as_str()).as_str(), scope_of(b.as_str()).as_str()) {
                    push_reason(
                        &mut reasons,
                        "IPv4 and IPv6 IP set references must share account, region, and scope",
                    );
                }
            }
        }
        reasons
    }
}

/// A set that was loaded from a list stays valid while the list and what is known of its file
/// stay as they are.
pub proof fn an_unchanged_list_is_valid(
    set: FrozenAddressSet,
    text: Seq<char>,
    provenance: PathProvenance,
    ipv4_arn: Option<Seq<char>>,
    ipv6_arn: Option<Seq<char>>,
)
    requires
        is_frozen(set, text, provenance, ipv4_arn, ipv6_arn),
    ensures
        is_frozen(set, text, provenance, opt_text(set.ipv4_arn), opt_text(set.ipv6_arn)),
{
}

} // verus!
