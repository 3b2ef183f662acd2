//! IP addresses and networks as plain numbers.

use crate::text::{decimal, push_decimal};
use vstd::arithmetic::power2::{lemma2_to64, lemma_pow2_pos, lemma_pow2_strictly_increases, pow2};
use vstd::prelude::*;
use vstd::string::*;

verus! {

/// An IP address: its family and the number that its bits form.
#[derive(Clone, Copy, Debug, PartialEq, Eq, Structural)]
pub struct Address {
    pub v4: bool,
    pub bits: u128,
}

/// A network in CIDR notation: an address, which may have bits after the prefix, and the length
/// of the prefix.
#[derive(Clone, Copy, Debug, PartialEq, Eq, Structural)]
pub struct Network {
    pub v4: bool,
    pub bits: u128,
    pub prefix: u8,
}

/// The number of bits in an address of the family.
pub open spec fn width(v4: bool) -> nat {
    if v4 {
        32
    } else {
        128
    }
}

impl Address {
    pub open spec fn wf(self) -> bool {
        self.bits < pow2(width(self.v4))
    }
}

impl Network {
    pub open spec fn wf(self) -> bool {
        self.bits < pow2(width(self.v4)) && self.prefix <= width(self.v4)
    }

    /// The number of addresses in the network.
    pub open spec fn block(self) -> nat {
        pow2((width(self.v4) - self.prefix) as nat)
    }

    /// An address lies in the network when it is of the same family and has the same prefix.
    pub open spec fn holds(self, address: Address) -> bool {
        self.v4 == address.v4 && address.bits as nat / self.block() == self.bits as nat
            / self.block()
    }

    /// The network with no bits after the prefix.
    pub open spec fn truncated(self) -> Network {
        Network {
            v4: self.v4,
            bits: (self.bits as nat - self.bits as nat % self.block()) as u128,
            prefix: self.prefix,
        }
    }
}

/// What reading a text as an IP address gives.
pub uninterp spec fn address_from_text(text: Seq<char>) -> Option<(bool, u128)>;

/// What reading a text as a network in CIDR notation gives.
pub uninterp spec fn network_from_text(text: Seq<char>) -> Option<(bool, u128, u8)>;

/// How an IPv4 address is written: its four numbers, separated by dots.
pub open spec fn ipv4_display(bits: u32) -> Seq<char> {
    decimal(bits as nat / 0x100_0000) + "."@ + decimal(bits as nat / 0x1_0000 % 0x100) + "."@
        + decimal(bits as nat / 0x100 % 0x100) + "."@ + decimal(bits as nat % 0x100)
}

/// How an IPv6 address is written.
pub uninterp spec fn ipv6_display(bits: u128) -> Seq<char>;

/// The address that a text stands for.
pub open spec fn parsed_address(text: Seq<char>) -> Option<Address> {
    match address_from_text(text) {
        Some(p) => Some(Address { v4: p.0, bits: p.1 }),
        None => None,
    }
}

/// The network that a text stands for.
pub open spec fn parsed_network(text: Seq<char>) -> Option<Network> {
    match network_from_text(text) {
        Some(p) => Some(Network { v4: p.0, bits: p.1, prefix: p.2 }),
        None => None,
    }
}

/// How an address is written.
pub open spec fn address_display(address: Address) -> Seq<char> {
    if address.v4 {
        ipv4_display(address.bits as u32)
    } else {
        ipv6_display(address.bits)
    }
}

/// How a network is written: its address, a slash and the length of the prefix.
pub open spec fn network_display(network: Network) -> Seq<char> {
    address_display(Address { v4: network.v4, bits: network.bits }).push('/') + decimal(
        network.prefix as nat,
    )
}

/// Reads an IP address with std's parser for the address type that `ipnet::IpNet::new` takes.
/// The result is a function of the text, and its bits fit the family.
#[verifier::external_body]
pub(crate) fn read_address(text: &str) -> (r: Option<(bool, u128)>)
    ensures
        r == address_from_text(text@),
        r matches Some(p) ==> p.1 < pow2(width(p.0)),
{
    match ipnet::IpNet::new(text.parse().ok()?, 0).ok()? {
        ipnet::IpNet::V4(net) => Some((true, u128::from(u32::from(net.addr())))),
        ipnet::IpNet::V6(net) => Some((false, u128::from(net.addr()))),
    }
}

/// Reads a network with `ipnet::IpNet`'s `FromStr`. The result is a function of the text; its
/// bits and its prefix fit the family.
#[verifier::external_body]
pub(crate) fn read_network(text: &str) -> (r: Option<(bool, u128, u8)>)
    ensures
        r == network_from_text(text@),
        r matches Some(p) ==> p.1 < pow2(width(p.0)) && p.2 <= width(p.0),
{
    match text.parse::<ipnet::IpNet>().ok()? {
        ipnet::IpNet::V4(net) => Some((true, u128::from(u32::from(net.addr())), net.prefix_len())),
        ipnet::IpNet::V6(net) => Some((false, u128::from(net.addr()), net.prefix_len())),
    }
}

/// Writes an IPv4 address.
fn ipv4_text(bits: u32) -> (r: String)
    ensures
        r@ == ipv4_display(bits),
{
    let mut r = String::new();
    push_decimal(&mut r, bits as u64 / 0x100_0000);
    r.push('.');
    push_decimal(&mut r, bits as u64 / 0x1_0000 % 0x100);
    r.push('.');
    push_decimal(&mut r, bits as u64 / 0x100 % 0x100);
    r.push('.');
    push_decimal(&mut r, bits as u64 % 0x100);
    proof {
        reveal_strlit(".");
        assert(r@ =~= ipv4_display(bits));
    }
    r
}

/// Writes an IPv6 address with the `Display` of the address in an `ipnet::Ipv6Net`.
#[verifier::external_body]
pub(crate) fn ipv6_text(bits: u128) -> (r: String)
    ensures
        r@ == ipv6_display(bits),
{
    ipnet::Ipv6Net::new_assert(bits.into(), 0).addr().to_string()
}

/// An IPv6 address that carries an IPv4 address stands for that IPv4 address.
pub open spec fn canonical(address: Address) -> Address {
    if !address.v4 && address.bits / 0x1_0000_0000 == 0xffff {
        Address { v4: true, bits: address.bits % 0x1_0000_0000 }
    } else {
        address
    }
}

pub proof fn lemma_widths()
    ensures
        pow2(32) == 0x1_0000_0000,
        pow2(128) == 0x1_0000_0000_0000_0000_0000_0000_0000_0000,
{
    lemma2_to64();
    vstd::arithmetic::power2::lemma_pow2_adds(64, 64);
    vstd::arithmetic::power2::lemma2_to64_rest();
    assert(pow2(128) == pow2(64) * pow2(64));
}

impl Address {
    pub fn parse(text: &str) -> (r: Option<Address>)
        ensures
            r == parsed_address(text@),
            r matches Some(a) ==> a.wf(),
    {
        match read_address(text) {
            Some(p) => Some(Address { v4: p.0, bits: p.1 }),
            None => None,
        }
    }

    pub fn canonical(&self) -> (r: Address)
        ensures
            r == canonical(*self),
            self.wf() ==> r.wf(),
    {
        proof {
            lemma_widths();
        }
        if !self.v4 && self.bits / 0x1_0000_0000 == 0xffff {
            Address { v4: true, bits: self.bits % 0x1_0000_0000 }
        } else {
            *self
        }
    }

    pub fn display(&self) -> (r: String)
        requires
            self.wf(),
        ensures
            r@ == address_display(*self),
    {
        proof {
            lemma_widths();
        }
        if self.v4 {
            ipv4_text(self.bits as u32)
        } else {
            ipv6_text(self.bits)
        }
    }
}

impl Network {
    pub fn parse(text: &str) -> (r: Option<Network>)
        ensures
            r == parsed_network(text@),
            r matches Some(n) ==> n.wf(),
    {
        match read_network(text) {
            Some(p) => Some(Network { v4: p.0, bits: p.1, prefix: p.2 }),
            None => None,
        }
    }

    /// The network that holds one address only.
    pub fn single(address: &Address) -> (r: Network)
        requires
            address.wf(),
        ensures
            r == (Network { v4: address.v4, bits: address.bits, prefix: width(address.v4) as u8 }),
            r.wf(),
    {
        Network {
            v4: address.v4,
            bits: address.bits,
            prefix: if address.v4 {
                32
            } else {
                128
            },
        }
    }

    fn host_bits(&self) -> (r: u32)
        requires
            self.wf(),
        ensures
            r == width(self.v4) - self.prefix,
            r <= 128,
    {
        if self.v4 {
            32 - self.prefix as u32
        } else {
            128 - self.prefix as u32
        }
    }

    pub fn contains(&self, address: &Address) -> (r: bool)
        requires
            self.wf(),
            address.wf(),
        ensures
            r == self.holds(*address),
    {
        if self.v4 != address.v4 {
            return false;
        }
        let shift = self.host_bits();
        proof {
            lemma_pow2_pos(shift as nat);
            lemma_widths();
        }
        if shift == 128 {
            assert(address.bits as nat / pow2(128) == 0) by (nonlinear_arith)
                requires
                    address.bits < pow2(128),
            ;
            assert(self.bits as nat / pow2(128) == 0) by (nonlinear_arith)
                requires
                    self.bits < pow2(128),
            ;
            return true;
        }
        proof {
            vstd::bits::lemma_u128_shr_is_div(self.bits, shift as u128);
            vstd::bits::lemma_u128_shr_is_div(address.bits, shift as u128);
        }
        (self.bits >> shift as u128) == (address.bits >> shift as u128)
    }

    pub fn trunc(&self) -> (r: Network)
        requires
            self.wf(),
        ensures
            r == self.truncated(),
            r.wf(),
    {
        let shift = self.host_bits();
        proof {
            lemma_pow2_pos(shift as nat);
            lemma_widths();
        }
        if shift == 128 {
            proof {
                assert(self.bits as nat % pow2(128) == self.bits) by (nonlinear_arith)
                    requires
                        self.bits < pow2(128),
                ;
            }
            return Network { v4: self.v4, bits: 0, prefix: self.prefix };
        }
        let kept: u128 = self.bits >> shift as u128;
        proof {
            vstd::bits::lemma_u128_shr_is_div(self.bits, shift as u128);
            vstd::arithmetic::div_mod::lemma_fundamental_div_mod(
                self.bits as int,
                pow2(shift as nat) as int,
            );
            assert(kept * pow2(shift as nat) <= self.bits) by (nonlinear_arith)
                requires
                    self.bits as int == pow2(shift as nat) as int * (kept as int) + (
                    self.bits as int % pow2(shift as nat) as int),
                    pow2(shift as nat) > 0,
            ;
            assert(kept * pow2(shift as nat) == pow2(shift as nat) as int * kept) by (nonlinear_arith);
            if shift < 128 {
                lemma_pow2_strictly_increases(shift as nat, 128);
            }
        }
        let block: u128 = self.block_size(shift);
        Network { v4: self.v4, bits: kept * block, prefix: self.prefix }
    }

    fn block_size(&self, shift: u32) -> (r: u128)
        requires
            shift < 128,
        ensures
            r == pow2(shift as nat),
    {
        let mut block: u128 = 1;
        let mut i: u32 = 0;
        proof {
            lemma2_to64();
        }
        while i < shift
            invariant
                i <= shift < 128,
                block == pow2(i as nat),
            decreases shift - i,
        {
            proof {
                vstd::arithmetic::power2::lemma_pow2_unfold((i + 1) as nat);
                lemma_pow2_strictly_increases((i + 1) as nat, 128);
                lemma_widths();
            }
            block = block * 2;
            i = i + 1;
        }
        block
    }

    pub fn display(&self) -> (r: String)
        requires
            self.wf(),
        ensures
            r@ == network_display(*self),
    {
        let mut r = Address { v4: self.v4, bits: self.bits }.display();
        r.push('/');
        push_decimal(&mut r, self.prefix as u64);
        r
    }

    /// Networks are ordered by family, then address, then prefix.
    pub open spec fn before(self, other: Network) -> bool {
        if self.v4 != other.v4 {
            self.v4
        } else if self.bits != other.bits {
            self.bits < other.bits
        } else {
            self.prefix < other.prefix
        }
    }

    pub fn is_before(&self, other: &Network) -> (r: bool)
        ensures
            r == self.before(*other),
    {
        if self.v4 != other.v4 {
            self.v4
        } else if self.bits != other.bits {
            self.bits < other.bits
        } else {
            self.prefix < other.prefix
        }
    }
}

/// A network truncated to its prefix holds the same addresses.
pub proof fn truncation_keeps_the_addresses(network: Network, address: Address)
    requires
        network.wf(),
        address.wf(),
    ensures
        network.truncated().holds(address) == network.holds(address),
{
    let b = network.block() as int;
    lemma_pow2_pos((width(network.v4) - network.prefix) as nat);
    let n = network.bits as int;
    vstd::arithmetic::div_mod::lemma_fundamental_div_mod(n, b);
    assert(0 <= n % b <= n) by (nonlinear_arith)
        requires
            b > 0,
            n >= 0,
    ;
    assert((n - n % b) / b == n / b) by (nonlinear_arith)
        requires
            b > 0,
            n >= 0,
            n == b * (n / b) + n % b,
    ;
}

} // verus!
