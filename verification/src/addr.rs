//! IP addresses as the engine holds them: the address bits as one integer,
//! most significant octet first.

use crate::bytes::{
    be_bytes, be_value, lemma_be_bytes_of_value, lemma_be_value_bound, lemma_be_value_4,
    lemma_pow256_values, push_be128, push_be32, read_be128, read_be32,
};
use vstd::prelude::*;

verus! {

/// An IPv4 or IPv6 address.
#[derive(Clone, Copy, Debug, PartialEq, Eq, Structural, Hash)]
pub enum IpAddress {
    V4(u32),
    V6(u128),
}

/// The text that smoltcp's `Display` gives for the IPv4 address with these bits.
pub uninterp spec fn ipv4_text(bits: u32) -> Seq<char>;

/// The text that smoltcp's `Display` gives for the IPv6 address with these bits.
pub uninterp spec fn ipv6_text(bits: u128) -> Seq<char>;

/// The bits of the IPv4 address that smoltcp's parser reads from `text`, if it reads one.
pub uninterp spec fn ipv4_literal(text: Seq<char>) -> Option<u32>;

/// The bits of the IPv6 address that smoltcp's parser reads from `text`, if it reads one.
pub uninterp spec fn ipv6_literal(text: Seq<char>) -> Option<u128>;

/// The address that `text` spells, if it spells one: IPv4 is tried first.
pub open spec fn ip_literal(text: Seq<char>) -> Option<IpAddress> {
    match ipv4_literal(text) {
        Some(bits) => Some(IpAddress::V4(bits)),
        None => match ipv6_literal(text) {
            Some(bits) => Some(IpAddress::V6(bits)),
            None => None,
        },
    }
}

impl IpAddress {
    /// The octets of the address in network order: four for IPv4, sixteen for IPv6.
    pub open spec fn octets(self) -> Seq<u8> {
        match self {
            IpAddress::V4(bits) => be_bytes(bits as nat, 4),
            IpAddress::V6(bits) => be_bytes(bits as nat, 16),
        }
    }

    /// The text form of the address.
    pub open spec fn text(self) -> Seq<char> {
        match self {
            IpAddress::V4(bits) => ipv4_text(bits),
            IpAddress::V6(bits) => ipv6_text(bits),
        }
    }

    /// The IPv4 address `a.b.c.d`.
    pub fn v4(a: u8, b: u8, c: u8, d: u8) -> (r: IpAddress)
        ensures
            r == IpAddress::V4(be_value(seq![a, b, c, d]) as u32),
            r.octets() == seq![a, b, c, d],
    {
        proof {
            lemma_be_value_4(a, b, c, d);
            lemma_be_bytes_of_value(seq![a, b, c, d]);
        }
        IpAddress::V4(
            (a as u32) * 0x100_0000 + (b as u32) * 0x1_0000 + (c as u32) * 256 + (d as u32),
        )
    }

    pub fn is_v4(&self) -> (r: bool)
        ensures
            r == (*self is V4),
    {
        match self {
            IpAddress::V4(_) => true,
            IpAddress::V6(_) => false,
        }
    }

    /// Reads the IPv4 address whose four octets stand at `off`.
    pub fn read_v4(buf: &[u8], off: usize) -> (r: IpAddress)
        requires
            off + 4 <= buf@.len(),
        ensures
            r is V4,
            r.octets() == buf@.subrange(off as int, off + 4),
    {
        proof {
            let s = buf@.subrange(off as int, off + 4);
            lemma_be_value_bound(s);
            lemma_pow256_values();
            lemma_be_bytes_of_value(s);
        }
        IpAddress::V4(read_be32(buf, off))
    }

    /// Reads the IPv6 address whose sixteen octets stand at `off`.
    pub fn read_v6(buf: &[u8], off: usize) -> (r: IpAddress)
        requires
            off + 16 <= buf@.len(),
        ensures
            r is V6,
            r.octets() == buf@.subrange(off as int, off + 16),
    {
        proof {
            let s = buf@.subrange(off as int, off + 16);
            lemma_be_value_bound(s);
            lemma_pow256_values();
            lemma_be_bytes_of_value(s);
        }
        IpAddress::V6(read_be128(buf, off))
    }

    /// Appends the octets of the address to `out`.
    pub fn push_octets(&self, out: &mut Vec<u8>)
        ensures
            final(out)@ == old(out)@ + self.octets(),
    {
        match self {
            IpAddress::V4(bits) => push_be32(out, *bits),
            IpAddress::V6(bits) => push_be128(out, *bits),
        }
    }

    /// The octets of the address, in network order.
    pub fn to_octets(&self) -> (r: Vec<u8>)
        ensures
            r@ == self.octets(),
    {
        let mut out: Vec<u8> = Vec::new();
        self.push_octets(&mut out);
        assert(out@ =~= self.octets());
        out
    }
}

/// smoltcp's `Display` for `Ipv4Address`: the contract names its result.
#[verifier::external_body]
fn ipv4_string(bits: u32) -> (r: String)
    ensures
        r@ == ipv4_text(bits),
{
    smoltcp::wire::Ipv4Address(bits.to_be_bytes()).to_string()
}

/// smoltcp's `Display` for `Ipv6Address`: the contract names its result.
#[verifier::external_body]
fn ipv6_string(bits: u128) -> (r: String)
    ensures
        r@ == ipv6_text(bits),
{
    smoltcp::wire::Ipv6Address(bits.to_be_bytes()).to_string()
}

/// smoltcp's `FromStr` for `Ipv4Address`: the contract names what it reads.
#[verifier::external_body]
fn parse_ipv4_literal(text: &str) -> (r: Option<u32>)
    ensures
        r == ipv4_literal(text@),
{
    match text.parse::<smoltcp::wire::Ipv4Address>() {
        Ok(address) => Some(u32::from_be_bytes(address.0)),
        Err(_) => None,
    }
}

/// smoltcp's `FromStr` for `Ipv6Address`: the contract names what it reads.
#[verifier::external_body]
fn parse_ipv6_literal(text: &str) -> (r: Option<u128>)
    ensures
        r == ipv6_literal(text@),
{
    match text.parse::<smoltcp::wire::Ipv6Address>() {
        Ok(address) => Some(u128::from_be_bytes(address.0)),
        Err(_) => None,
    }
}

/// The text form of `ip`.
pub fn ip_string(ip: IpAddress) -> (r: String)
    ensures
        r@ == ip.text(),
{
    match ip {
        IpAddress::V4(bits) => ipv4_string(bits),
        IpAddress::V6(bits) => ipv6_string(bits),
    }
}

/// Reads `text` as an IP address: as an IPv4 address first, then as an IPv6 address.
pub fn parse_ip(text: &str) -> (r: Option<IpAddress>)
    ensures
        r == ip_literal(text@),
{
    match parse_ipv4_literal(text) {
        Some(bits) => Some(IpAddress::V4(bits)),
        None => match parse_ipv6_literal(text) {
            Some(bits) => Some(IpAddress::V6(bits)),
            None => None,
        },
    }
}

} // verus!
