//! Addresses in text: IPv4 in dotted-quad form, and IPv6 in
//! colon-separated hexadecimal form.

use vstd::prelude::*;
use vstd::slice::slice_subrange;
use vstd::string::StringSliceAdditionalSpecFns;
use crate::ip2c::{IPv4, IPv6};
use crate::text::{
    all_digits, cut, digits_value, parse_number, split_first, COLON, DOT, PLUS, ZERO,
};

verus! {

/// The text does not write an address.
#[derive(Debug, Clone, Copy, PartialEq, Eq)]
pub struct AddrParseError;

/// The octet that `p` writes: one to three decimal digits, without a leading
/// zero unless the zero stands alone, that write 255 at most.
pub open spec fn octet_text(p: Seq<u8>) -> Option<nat> {
    if 1 <= p.len() <= 3 && all_digits(p) && (p.len() == 1 || p[0] != ZERO) && digits_value(p)
        <= 255 {
        Some(digits_value(p))
    } else {
        None
    }
}

/// The address that `s` writes in dotted-quad form: four octets with a dot
/// between each two.
pub open spec fn ipv4_text(s: Seq<u8>) -> Option<u32> {
    match cut(s, DOT) {
        None => None,
        Some((a, s1)) => match cut(s1, DOT) {
            None => None,
            Some((b, s2)) => match cut(s2, DOT) {
                None => None,
                Some((c, d)) => match (octet_text(a), octet_text(b), octet_text(c), octet_text(d)) {
                    (Some(a), Some(b), Some(c), Some(d)) => Some(
                        (a * 0x100_0000 + b * 0x1_0000 + c * 0x100 + d) as u32,
                    ),
                    _ => None,
                },
            },
        },
    }
}

/// Reads one octet of a dotted quad.
pub fn parse_octet(p: &[u8]) -> (r: Option<u8>)
    ensures
        r == match octet_text(p@) {
            Some(v) => Some(v as u8),
            None => None,
        },
{
    if p.len() == 0 || p.len() > 3 {
        return None;
    }
    if p[0] == PLUS || (p.len() > 1 && p[0] == ZERO) {
        return None;
    }
    match parse_number(p, 255) {
        Some(v) => Some(v as u8),
        None => None,
    }
}

/// Reads an IPv4 address in dotted-quad form.
pub fn parse_ipv4(s: &[u8]) -> (r: Option<IPv4>)
    ensures
        r == match ipv4_text(s@) {
            Some(v) => Some(IPv4(v)),
            None => None,
        },
{
    let (a, s1) = match split_first(s, DOT) {
        Some(parts) => parts,
        None => { return None; },
    };
    let (b, s2) = match split_first(s1, DOT) {
        Some(parts) => parts,
        None => { return None; },
    };
    let (c, d) = match split_first(s2, DOT) {
        Some(parts) => parts,
        None => { return None; },
    };
    match (parse_octet(a), parse_octet(b), parse_octet(c), parse_octet(d)) {
        (Some(a), Some(b), Some(c), Some(d)) => Some(
            IPv4((a as u32) * 0x100_0000 + (b as u32) * 0x1_0000 + (c as u32) * 0x100 + (d as u32)),
        ),
        _ => None,
    }
}

impl IPv4 {
    /// The address that the four octets write.
    pub fn from_octets(a: u8, b: u8, c: u8, d: u8) -> (r: Self)
        ensures
            r.0 == a * 0x100_0000 + b * 0x1_0000 + c * 0x100 + d,
    {
        IPv4((a as u32) * 0x100_0000 + (b as u32) * 0x1_0000 + (c as u32) * 0x100 + (d as u32))
    }

    /// Reads an address in dotted-quad form, such as `100.0.0.1`.
    pub fn parse(s: &str) -> (r: Option<Self>)
        ensures
            r == match ipv4_text(s.spec_bytes()) {
                Some(v) => Some(IPv4(v)),
                None => None,
            },
    {
        parse_ipv4(s.as_bytes())
    }
}

impl core::str::FromStr for IPv4 {
    type Err = AddrParseError;

    fn from_str(s: &str) -> (r: Result<Self, AddrParseError>)
        ensures
            r == match ipv4_text(s.spec_bytes()) {
                Some(v) => Ok::<IPv4, AddrParseError>(IPv4(v)),
                None => Err(AddrParseError),
            },
    {
        match IPv4::parse(s) {
            Some(ip) => Ok(ip),
            None => Err(AddrParseError),
        }
    }
}

/// Whether the byte is a hexadecimal digit, in either case.
pub open spec fn is_hex(b: u8) -> bool {
    48 <= b <= 57 || 65 <= b <= 70 || 97 <= b <= 102
}

/// The number that a hexadecimal digit writes.
pub open spec fn hex_digit(b: u8) -> nat {
    if b <= 57 {
        (b - 48) as nat
    } else if b <= 70 {
        (b - 55) as nat
    } else {
        (b - 87) as nat
    }
}

/// The number that the hexadecimal digits of `s` write.
pub open spec fn hex_value(s: Seq<u8>) -> nat
    decreases s.len(),
{
    if s.len() == 0 {
        0
    } else {
        hex_value(s.drop_last()) * 16 + hex_digit(s.last())
    }
}

/// The sixteen bits that `p` writes: one to four hexadecimal digits.
pub open spec fn group_text(p: Seq<u8>) -> Option<u16> {
    if 1 <= p.len() <= 4 && (forall|i: int| 0 <= i < p.len() ==> is_hex(#[trigger] p[i])) {
        Some(hex_value(p) as u16)
    } else {
        None
    }
}

/// `front` followed by the groups of `rest`, where there are any.
pub open spec fn and_then_groups(front: Seq<u16>, rest: Option<Seq<u16>>) -> Option<Seq<u16>> {
    match rest {
        Some(gs) => Some(front + gs),
        None => None,
    }
}

/// The two groups that an IPv4 address fills.
pub open spec fn ipv4_groups(ip: u32) -> Seq<u16> {
    seq![(ip / 0x1_0000) as u16, (ip % 0x1_0000) as u16]
}

/// The groups that `s` writes with a colon between each two, `room` of
/// them at most. Where `v4` is set the last two may be written as an IPv4
/// address in dotted-quad form.
pub open spec fn groups_text(s: Seq<u8>, v4: bool, room: nat) -> Option<Seq<u16>>
    decreases room,
{
    if room == 0 {
        None
    } else {
        match cut(s, COLON) {
            Some((a, rest)) => match group_text(a) {
                Some(g) => and_then_groups(seq![g], groups_text(rest, v4, (room - 1) as nat)),
                None => None,
            },
            None => match group_text(s) {
                Some(g) => Some(seq![g]),
                None => if v4 && room >= 2 {
                    match ipv4_text(s) {
                        Some(ip) => Some(ipv4_groups(ip)),
                        None => None,
                    }
                } else {
                    None
                },
            },
        }
    }
}

/// Two colons stand side by side at the place `i` of `s`.
pub open spec fn gap_at(s: Seq<u8>, i: int) -> bool {
    0 <= i < s.len() - 1 && s[i] == COLON && s[i + 1] == COLON
}

/// `i` is the first place in `s` where two colons stand side by side.
pub open spec fn is_first_gap(s: Seq<u8>, i: int) -> bool {
    &&& gap_at(s, i)
    &&& forall|j: int| 0 <= j < i ==> !gap_at(s, j)
}

/// Whether two colons stand side by side anywhere in `s`.
pub open spec fn has_gap(s: Seq<u8>) -> bool {
    exists|i: int| gap_at(s, i)
}

/// The first place in `s` where two colons stand side by side.
pub open spec fn first_gap(s: Seq<u8>) -> int {
    choose|i: int| is_first_gap(s, i)
}

/// The number that eight groups write, first group highest.
pub open spec fn groups_value(g: Seq<u16>) -> u128
    recommends
        g.len() == 8,
{
    (g[0] * 0x1_0000_0000_0000_0000_0000_0000_0000 + g[1] * 0x1_0000_0000_0000_0000_0000_0000
        + g[2] * 0x1_0000_0000_0000_0000_0000 + g[3] * 0x1_0000_0000_0000_0000 + g[4]
        * 0x1_0000_0000_0000 + g[5] * 0x1_0000_0000 + g[6] * 0x1_0000 + g[7]) as u128
}

/// The groups that `s` writes on one side of a gap; nothing written is no
/// group.
pub open spec fn side_text(s: Seq<u8>, v4: bool) -> Option<Seq<u16>> {
    if s.len() == 0 {
        Some(Seq::empty())
    } else {
        groups_text(s, v4, 8)
    }
}

/// The eight groups that `s` writes as an IPv6 address. Either all eight are
/// written; or two colons side by side, once, stand for the one or more zero
/// groups that are left out. The last two groups may be written as an IPv4
/// address, but not before such a gap.
pub open spec fn ipv6_groups(s: Seq<u8>) -> Option<Seq<u16>> {
    if has_gap(s) {
        let d = first_gap(s);
        match (side_text(s.take(d), false), side_text(s.skip(d + 2), true)) {
            (Some(head), Some(tail)) => if head.len() + tail.len() <= 7 {
                Some(head + Seq::new((8 - head.len() - tail.len()) as nat, |i: int| 0u16) + tail)
            } else {
                None
            },
            _ => None,
        }
    } else {
        match groups_text(s, true, 8) {
            Some(g) => if g.len() == 8 {
                Some(g)
            } else {
                None
            },
            None => None,
        }
    }
}

/// The address that `s` writes in colon-separated hexadecimal form.
pub open spec fn ipv6_text(s: Seq<u8>) -> Option<u128> {
    match ipv6_groups(s) {
        Some(g) => Some(groups_value(g)),
        None => None,
    }
}

/// Reads one group of an IPv6 address.
pub fn parse_group(p: &[u8]) -> (r: Option<u16>)
    ensures
        r == group_text(p@),
{
    if p.len() == 0 || p.len() > 4 {
        return None;
    }
    let mut acc: u32 = 0;
    let mut i: usize = 0;
    while i < p.len()
        invariant
            0 <= i <= p@.len(),
            1 <= p@.len() <= 4,
            forall|j: int| 0 <= j < i ==> is_hex(#[trigger] p@[j]),
            acc == hex_value(p@.take(i as int)),
            i == 0 ==> acc == 0,
            i == 1 ==> acc < 0x10,
            i == 2 ==> acc < 0x100,
            i == 3 ==> acc < 0x1000,
            i == 4 ==> acc < 0x1_0000,
        decreases p@.len() - i,
    {
        let b = p[i];
        let d: u8 = if 48 <= b && b <= 57 {
            b - 48
        } else if 65 <= b && b <= 70 {
            b - 55
        } else if 97 <= b && b <= 102 {
            b - 87
        } else {
            assert(!is_hex(p@[i as int]));
            return None;
        };
        proof {
            assert(p@.take(i + 1).drop_last() =~= p@.take(i as int));
        }
        acc = acc * 16 + d as u32;
        i += 1;
    }
    proof {
        assert(p@.take(i as int) =~= p@);
    }
    Some(acc as u16)
}

/// Reads groups with a colon between each two.
pub fn parse_groups(s: &[u8], v4: bool) -> (r: Option<Vec<u16>>)
    ensures
        match r {
            Some(g) => groups_text(s@, v4, 8) == Some(g@) && 1 <= g@.len() <= 8,
            None => groups_text(s@, v4, 8).is_none(),
        },
{
    let mut out: Vec<u16> = Vec::new();
    let mut rest: &[u8] = s;
    while out.len() < 8
        invariant
            out@.len() <= 8,
            groups_text(s@, v4, 8) == and_then_groups(
                out@,
                groups_text(rest@, v4, (8 - out@.len()) as nat),
            ),
        decreases 8 - out@.len(),
    {
        let ghost room = (8 - out@.len()) as nat;
        match split_first(rest, COLON) {
            Some((a, after)) => match parse_group(a) {
                Some(g) => {
                    proof {
                        let tail = groups_text(after@, v4, (room - 1) as nat);
                        assert(groups_text(rest@, v4, room) == and_then_groups(seq![g], tail));
                        if let Some(gs) = tail {
                            assert(out@ + (seq![g] + gs) =~= out@.push(g) + gs);
                        }
                    }
                    out.push(g);
                    rest = after;
                },
                None => {
                    return None;
                },
            },
            None => {
                match parse_group(rest) {
                    Some(g) => {
                        proof {
                            assert(out@ + seq![g] =~= out@.push(g));
                        }
                        out.push(g);
                        return Some(out);
                    },
                    None => {
                        if v4 && out.len() <= 6 {
                            match parse_ipv4(rest) {
                                Some(ip) => {
                                    let hi: u16 = (ip.0 / 0x1_0000) as u16;
                                    let lo: u16 = (ip.0 % 0x1_0000) as u16;
                                    proof {
                                        assert(out@ + ipv4_groups(ip.0) =~= out@.push(hi).push(lo));
                                    }
                                    out.push(hi);
                                    out.push(lo);
                                    return Some(out);
                                },
                                None => {
                                    return None;
                                },
                            }
                        } else {
                            return None;
                        }
                    },
                }
            },
        }
    }
    None
}

/// The first place where two colons stand side by side.
pub fn find_gap(s: &[u8]) -> (r: Option<usize>)
    ensures
        match r {
            Some(i) => is_first_gap(s@, i as int) && first_gap(s@) == i && has_gap(s@),
            None => !has_gap(s@),
        },
{
    let n = s.len();
    if n < 2 {
        return None;
    }
    let mut i: usize = 0;
    while i < n - 1
        invariant
            n == s@.len(),
            n >= 2,
            0 <= i <= n - 1,
            forall|j: int| 0 <= j < i ==> !gap_at(s@, j),
        decreases n - i,
    {
        if s[i] == COLON && s[i + 1] == COLON {
            proof {
                let j = first_gap(s@);
                assert(is_first_gap(s@, i as int));
                assert(is_first_gap(s@, j));
            }
            return Some(i);
        }
        i += 1;
    }
    None
}

/// Reads the groups on one side of a gap.
fn parse_side(s: &[u8], v4: bool) -> (r: Option<Vec<u16>>)
    ensures
        match r {
            Some(g) => side_text(s@, v4) == Some(g@) && g@.len() <= 8,
            None => side_text(s@, v4).is_none(),
        },
{
    if s.len() == 0 {
        Some(Vec::new())
    } else {
        parse_groups(s, v4)
    }
}

/// Reads the eight groups of an IPv6 address.
pub fn parse_ipv6_groups(s: &[u8]) -> (r: Option<Vec<u16>>)
    ensures
        match r {
            Some(g) => ipv6_groups(s@) == Some(g@) && g@.len() == 8,
            None => ipv6_groups(s@).is_none(),
        },
{
    match find_gap(s) {
        Some(d) => {
            let n = s.len();
            let head = match parse_side(slice_subrange(s, 0, d), false) {
                Some(g) => g,
                None => { return None; },
            };
            let tail = match parse_side(slice_subrange(s, d + 2, n), true) {
                Some(g) => g,
                None => { return None; },
            };
            if head.len() + tail.len() > 7 {
                return None;
            }
            let zeros: usize = 8 - head.len() - tail.len();
            let ghost h = head@;
            let mut all: Vec<u16> = head;
            let mut i: usize = 0;
            while i < zeros
                invariant
                    0 <= i <= zeros,
                    all@ =~= h + Seq::new(i as nat, |k: int| 0u16),
                decreases zeros - i,
            {
                all.push(0);
                i += 1;
            }
            let mut j: usize = 0;
            while j < tail.len()
                invariant
                    0 <= j <= tail@.len(),
                    all@ =~= h + Seq::new(zeros as nat, |k: int| 0u16) + tail@.take(j as int),
                decreases tail@.len() - j,
            {
                all.push(tail[j]);
                j += 1;
            }
            proof {
                assert(tail@.take(j as int) =~= tail@);
            }
            Some(all)
        },
        None => match parse_groups(s, true) {
            Some(g) => if g.len() == 8 {
                Some(g)
            } else {
                None
            },
            None => None,
        },
    }
}

/// Reads an IPv6 address in colon-separated hexadecimal form.
pub fn parse_ipv6(s: &[u8]) -> (r: Option<IPv6>)
    ensures
        r == match ipv6_text(s@) {
            Some(v) => Some(IPv6(v)),
            None => None,
        },
{
    match parse_ipv6_groups(s) {
        Some(g) => Some(
            IPv6(
                (g[0] as u128) * 0x1_0000_0000_0000_0000_0000_0000_0000 + (g[1] as u128)
                    * 0x1_0000_0000_0000_0000_0000_0000 + (g[2] as u128)
                    * 0x1_0000_0000_0000_0000_0000 + (g[3] as u128) * 0x1_0000_0000_0000_0000 + (
                g[4] as u128) * 0x1_0000_0000_0000 + (g[5] as u128) * 0x1_0000_0000 + (g[6] as u128)
                    * 0x1_0000 + (g[7] as u128),
            ),
        ),
        None => None,
    }
}

impl IPv6 {
    /// Reads an address in colon-separated hexadecimal form, such as
    /// `2001:db8::1` or `::ffff:1.2.3.4`.
    pub fn parse(s: &str) -> (r: Option<Self>)
        ensures
            r == match ipv6_text(s.spec_bytes()) {
                Some(v) => Some(IPv6(v)),
                None => None,
            },
    {
        parse_ipv6(s.as_bytes())
    }
}

impl core::str::FromStr for IPv6 {
    type Err = AddrParseError;

    fn from_str(s: &str) -> (r: Result<Self, AddrParseError>)
        ensures
            r == match ipv6_text(s.spec_bytes()) {
                Some(v) => Ok::<IPv6, AddrParseError>(IPv6(v)),
                None => Err(AddrParseError),
            },
    {
        match IPv6::parse(s) {
            Some(ip) => Ok(ip),
            None => Err(AddrParseError),
        }
    }
}

} // verus!
