//! Address ranges in text: `a-b`, `a/n` and a bare address.

use vstd::prelude::*;
use vstd::string::StringSliceAdditionalSpecFns;
use crate::addr::{ipv4_text, ipv6_text, parse_ipv4, parse_ipv6};
use crate::ip2c::{IPv4, IPv6};
use crate::itree::Interval;
use crate::text::{
    cut, find, number_text, parse_number, split_first, COLON, DASH, DOT, SLASH,
};

verus! {

/// The text does not write a range of IPv4 addresses.
#[derive(Debug, Clone, Copy, PartialEq, Eq)]
pub struct ParseIpv4ScopeError;

/// The text does not write a range of IPv6 addresses.
#[derive(Debug, Clone, Copy, PartialEq, Eq)]
pub struct ParseIpv6ScopeError;

impl ParseIpv4ScopeError {
    /// What went wrong, in words.
    pub fn message(&self) -> (r: &'static str)
        ensures
            r == "parse ipv4 scope error",
    {
        "parse ipv4 scope error"
    }
}

impl ParseIpv6ScopeError {
    /// What went wrong, in words.
    pub fn message(&self) -> (r: &'static str)
        ensures
            r == "parse ipv6 scope error",
    {
        "parse ipv6 scope error"
    }
}

/// The addresses that share their first `n` bits with `ip`, as a closed
/// interval: `ip` with the bits after the first `n` cleared, up to `ip` with
/// those bits set. A prefix of no bits is taken only with the all-zero
/// address, and a prefix longer than the address is refused.
pub open spec fn ipv4_block(ip: u32, n: nat) -> Option<Interval<IPv4>> {
    if n == 0 {
        if ip == 0 {
            Some(Interval::Scope(IPv4(0), IPv4(u32::MAX)))
        } else {
            None
        }
    } else if n == 32 {
        Some(Interval::Scope(IPv4(ip), IPv4(ip)))
    } else if n < 32 {
        let add = ((1u32 << ((32 - n) as u32)) - 1) as u32;
        let low = ip & !add;
        Some(Interval::Scope(IPv4(low), IPv4((low + add) as u32)))
    } else {
        None
    }
}

/// The closed interval from `ip` to the address that has `ip`'s first three
/// octets and `n` as its last.
pub open spec fn ipv4_upto(ip: u32, n: nat) -> Option<Interval<IPv4>> {
    if n <= 255 {
        Some(Interval::Scope(IPv4(ip), IPv4(((ip & !255u32) + n) as u32)))
    } else {
        None
    }
}

/// The range of IPv4 addresses that `s` writes, in one of three forms:
/// two addresses with a dash between them, or an address, a dash and the last
/// octet of the upper bound; an address, a slash and a prefix length; or one
/// address, which is a single point. Two addresses are taken in the order
/// they are written, so that the interval may be one that no map takes. No
/// text of more than 31 bytes is read.
pub open spec fn ipv4_scope_text(s: Seq<u8>) -> Option<Interval<IPv4>> {
    if s.len() > 31 {
        None
    } else if let Some((a, b)) = cut(s, DASH) {
        match ipv4_text(a) {
            None => None,
            Some(ip) => if b.contains(DOT) {
                match ipv4_text(b) {
                    Some(last) => Some(Interval::Scope(IPv4(ip), IPv4(last))),
                    None => None,
                }
            } else {
                match number_text(b) {
                    Some(n) => ipv4_upto(ip, n),
                    None => None,
                }
            },
        }
    } else if let Some((a, b)) = cut(s, SLASH) {
        match (ipv4_text(a), number_text(b)) {
            (Some(ip), Some(n)) => ipv4_block(ip, n),
            _ => None,
        }
    } else {
        match ipv4_text(s) {
            Some(ip) => Some(Interval::Scope(IPv4(ip), IPv4(ip))),
            None => None,
        }
    }
}

/// The block of addresses that share their first `n` bits with `ip`.
pub fn ipv4_prefix_block(ip: IPv4, n: u8) -> (r: Option<Interval<IPv4>>)
    ensures
        r == ipv4_block(ip.0, n as nat),
        r.is_some() <==> (n == 0 && ip.0 == 0) || 1 <= n <= 32,
        match r {
            Some(i) => i.valid() && i.contains(ip),
            None => true,
        },
{
    if n == 0 {
        if ip.0 == 0 {
            Some(Interval::Scope(IPv4(0), IPv4(u32::MAX)))
        } else {
            None
        }
    } else if n == 32 {
        Some(Interval::Scope(ip, ip))
    } else if n < 32 {
        let k: u32 = (32 - n) as u32;
        let a: u32 = ip.0;
        assert({
            let m = ((1u32 << k) - 1) as u32;
            &&& 1u32 << k >= 1
            &&& (a & !m) <= a
            &&& a - (a & !m) <= m
            &&& (a & !m) <= 0xffff_ffffu32 - m
        }) by (bit_vector)
            requires
                1 <= k < 32,
        ;
        let add: u32 = (1u32 << k) - 1;
        let low: u32 = a & !add;
        Some(Interval::Scope(IPv4(low), IPv4(low + add)))
    } else {
        None
    }
}

/// The interval from `ip` to the address with the same first three octets
/// and the last octet `n`.
pub fn ipv4_upto_octet(ip: IPv4, n: u8) -> (r: Interval<IPv4>)
    ensures
        Some(r) == ipv4_upto(ip.0, n as nat),
{
    let a: u32 = ip.0;
    assert((a & !255u32) <= 0xffff_ff00u32) by (bit_vector);
    Interval::Scope(ip, IPv4((a & !255u32) + (n as u32)))
}

impl Interval<IPv4> {
    /// Reads a range of IPv4 addresses: `100.0.0.0-101.0.0.0`,
    /// `100.0.0.1-100`, `100.0.0.1/20` or `100.0.0.200`.
    pub fn from_str(s: &str) -> (r: Result<Interval<IPv4>, ParseIpv4ScopeError>)
        ensures
            r == match ipv4_scope_text(s.spec_bytes()) {
                Some(i) => Ok::<Interval<IPv4>, ParseIpv4ScopeError>(i),
                None => Err(ParseIpv4ScopeError),
            },
    {
        let s = s.as_bytes();
        if s.len() > 31 {
            return Err(ParseIpv4ScopeError);
        }
        if let Some((a, b)) = split_first(s, DASH) {
            let ip = match parse_ipv4(a) {
                Some(ip) => ip,
                None => { return Err(ParseIpv4ScopeError); },
            };
            if find(b, DOT).is_some() {
                match parse_ipv4(b) {
                    Some(last) => Ok(Interval::Scope(ip, last)),
                    None => Err(ParseIpv4ScopeError),
                }
            } else {
                match parse_number(b, 255) {
                    Some(n) => Ok(ipv4_upto_octet(ip, n as u8)),
                    None => Err(ParseIpv4ScopeError),
                }
            }
        } else if let Some((a, b)) = split_first(s, SLASH) {
            let ip = match parse_ipv4(a) {
                Some(ip) => ip,
                None => { return Err(ParseIpv4ScopeError); },
            };
            let n = match parse_number(b, 255) {
                Some(n) => n,
                None => { return Err(ParseIpv4ScopeError); },
            };
            match ipv4_prefix_block(ip, n as u8) {
                Some(i) => Ok(i),
                None => Err(ParseIpv4ScopeError),
            }
        } else {
            match parse_ipv4(s) {
                Some(ip) => Ok(Interval::Scope(ip, ip)),
                None => Err(ParseIpv4ScopeError),
            }
        }
    }
}


/// The IPv6 addresses that share their first `n` bits with `ip`, as a
/// closed interval, under the same rules as for IPv4.
pub open spec fn ipv6_block(ip: u128, n: nat) -> Option<Interval<IPv6>> {
    if n == 0 {
        if ip == 0 {
            Some(Interval::Scope(IPv6(0), IPv6(u128::MAX)))
        } else {
            None
        }
    } else if n == 128 {
        Some(Interval::Scope(IPv6(ip), IPv6(ip)))
    } else if n < 128 {
        let add = ((1u128 << ((128 - n) as u128)) - 1) as u128;
        let low = ip & !add;
        Some(Interval::Scope(IPv6(low), IPv6((low + add) as u128)))
    } else {
        None
    }
}

/// The range of IPv6 addresses that `s` writes: an address, a slash and a
/// prefix length, or one address, which is a single point. The text holds a
/// colon and is 48 bytes long at most.
pub open spec fn ipv6_scope_text(s: Seq<u8>) -> Option<Interval<IPv6>> {
    if s.len() > 48 || !s.contains(COLON) {
        None
    } else if let Some((a, b)) = cut(s, SLASH) {
        match (ipv6_text(a), number_text(b)) {
            (Some(ip), Some(n)) => ipv6_block(ip, n),
            _ => None,
        }
    } else {
        match ipv6_text(s) {
            Some(ip) => Some(Interval::Scope(IPv6(ip), IPv6(ip))),
            None => None,
        }
    }
}

/// The block of addresses that share their first `n` bits with `ip`.
pub fn ipv6_prefix_block(ip: IPv6, n: u8) -> (r: Option<Interval<IPv6>>)
    ensures
        r == ipv6_block(ip.0, n as nat),
        r.is_some() <==> (n == 0 && ip.0 == 0) || 1 <= n <= 128,
        match r {
            Some(i) => i.valid() && i.contains(ip),
            None => true,
        },
{
    if n == 0 {
        if ip.0 == 0 {
            Some(Interval::Scope(IPv6(0), IPv6(u128::MAX)))
        } else {
            None
        }
    } else if n == 128 {
        Some(Interval::Scope(ip, ip))
    } else if n < 128 {
        let k: u128 = (128 - n) as u128;
        let a: u128 = ip.0;
        assert({
            let m = ((1u128 << k) - 1) as u128;
            &&& 1u128 << k >= 1
            &&& (a & !m) <= a
            &&& a - (a & !m) <= m
            &&& (a & !m) <= 0xffff_ffff_ffff_ffff_ffff_ffff_ffff_ffffu128 - m
        }) by (bit_vector)
            requires
                1 <= k < 128,
        ;
        let add: u128 = (1u128 << k) - 1;
        let low: u128 = a & !add;
        Some(Interval::Scope(IPv6(low), IPv6(low + add)))
    } else {
        None
    }
}

impl Interval<IPv6> {
    /// Reads a range of IPv6 addresses: `::1/120` or `2001:db8::1`.
    pub fn from_str(s: &str) -> (r: Result<Interval<IPv6>, ParseIpv6ScopeError>)
        ensures
            r == match ipv6_scope_text(s.spec_bytes()) {
                Some(i) => Ok::<Interval<IPv6>, ParseIpv6ScopeError>(i),
                None => Err(ParseIpv6ScopeError),
            },
    {
        let s = s.as_bytes();
        if s.len() > 48 || find(s, COLON).is_none() {
            return Err(ParseIpv6ScopeError);
        }
        if let Some((a, b)) = split_first(s, SLASH) {
            let ip = match parse_ipv6(a) {
                Some(ip) => ip,
                None => { return Err(ParseIpv6ScopeError); },
            };
            let n = match parse_number(b, 255) {
                Some(n) => n,
                None => { return Err(ParseIpv6ScopeError); },
            };
            match ipv6_prefix_block(ip, n as u8) {
                Some(i) => Ok(i),
                None => Err(ParseIpv6ScopeError),
            }
        } else {
            match parse_ipv6(s) {
                Some(ip) => Ok(Interval::Scope(ip, ip)),
                None => Err(ParseIpv6ScopeError),
            }
        }
    }
}


impl core::str::FromStr for Interval<IPv4> {
    type Err = ParseIpv4ScopeError;

    fn from_str(s: &str) -> (r: Result<Self, ParseIpv4ScopeError>)
        ensures
            r == match ipv4_scope_text(s.spec_bytes()) {
                Some(i) => Ok::<Interval<IPv4>, ParseIpv4ScopeError>(i),
                None => Err(ParseIpv4ScopeError),
            },
    {
        Interval::<IPv4>::from_str(s)
    }
}

impl core::str::FromStr for Interval<IPv6> {
    type Err = ParseIpv6ScopeError;

    fn from_str(s: &str) -> (r: Result<Self, ParseIpv6ScopeError>)
        ensures
            r == match ipv6_scope_text(s.spec_bytes()) {
                Some(i) => Ok::<Interval<IPv6>, ParseIpv6ScopeError>(i),
                None => Err(ParseIpv6ScopeError),
            },
    {
        Interval::<IPv6>::from_str(s)
    }
}


/// Whether two IPv4 addresses differ in none of their first `n` bits.
pub open spec fn ipv4_same_prefix(a: u32, b: u32, n: nat) -> bool {
    n == 0 || (n < 32 && (a ^ b) >> ((32 - n) as u32) == 0) || (n >= 32 && a == b)
}

/// Whether two IPv6 addresses differ in none of their first `n` bits.
pub open spec fn ipv6_same_prefix(a: u128, b: u128, n: nat) -> bool {
    n == 0 || (n < 128 && (a ^ b) >> ((128 - n) as u128) == 0) || (n >= 128 && a == b)
}

/// A block holds the addresses that have the first `n` bits of the address
/// it was made from, and no others.
pub proof fn ipv4_block_is_its_prefix(ip: u32, n: nat, x: u32)
    requires
        ipv4_block(ip, n).is_some(),
    ensures
        ipv4_block(ip, n).unwrap().contains(IPv4(x)) <==> ipv4_same_prefix(ip, x, n),
{
    if 0 < n < 32 {
        let k = (32 - n) as u32;
        assert({
            let m = ((1u32 << k) - 1) as u32;
            &&& (ip & !m) <= 0xffff_ffffu32 - m
            &&& ((ip & !m) <= x && x <= (ip & !m) + m) <==> ((ip ^ x) >> k == 0)
        }) by (bit_vector)
            requires
                1 <= k < 32,
        ;
    }
}

/// A block holds the addresses that have the first `n` bits of the address
/// it was made from, and no others.
pub proof fn ipv6_block_is_its_prefix(ip: u128, n: nat, x: u128)
    requires
        ipv6_block(ip, n).is_some(),
    ensures
        ipv6_block(ip, n).unwrap().contains(IPv6(x)) <==> ipv6_same_prefix(ip, x, n),
{
    if 0 < n < 128 {
        let k = (128 - n) as u128;
        let m = ((1u128 << k) - 1) as u128;
        let low = ip & !m;
        let d = ip ^ x;
        assert(m == !(0xffff_ffff_ffff_ffff_ffff_ffff_ffff_ffffu128 << k)) by (bit_vector)
            requires
                1 <= k < 128,
                m == ((1u128 << k) - 1) as u128,
        ;
        assert(low & m == 0 && low <= 0xffff_ffff_ffff_ffff_ffff_ffff_ffff_ffffu128 - m && low + m
            == low | m) by (bit_vector)
            requires
                low == ip & !m,
        ;
        assert((low <= x && x <= low | m) <==> x & !m == low) by (bit_vector)
            requires
                1 <= k < 128,
                m == !(0xffff_ffff_ffff_ffff_ffff_ffff_ffff_ffffu128 << k),
                low & m == 0,
        ;
        assert(x & !m == ip & !m <==> d & !m == 0) by (bit_vector)
            requires
                d == ip ^ x,
        ;
        assert(d & !m == 0 <==> d >> k == 0) by (bit_vector)
            requires
                1 <= k < 128,
                m == !(0xffff_ffff_ffff_ffff_ffff_ffff_ffff_ffffu128 << k),
        ;
    }
}

} // verus!
