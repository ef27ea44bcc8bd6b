//! Records of a registry file: one line of text with `|` between its
//! fields.

use vstd::prelude::*;
use vstd::slice::slice_subrange;
use vstd::string::StringSliceAdditionalSpecFns;
use vstd::utf8::{encode_utf8, valid_utf8};
use crate::addr::{ipv4_text, ipv6_text, parse_ipv4, parse_ipv6};
use crate::ip2c::{IPv4, IPv6, IpTree};
use crate::itree::{inserted, insertion, ordered, vacant, Entries, Interval, IntervalError};
use crate::rir::{code_of, code_of_its_bytes, utf8_text, CountryRegionCode};
use crate::text::{cut, number_text, parse_number, split_first, BAR, HASH};
use crate::util::{ipv6_block, ipv6_prefix_block};

verus! {

/// A range of addresses of one family.
#[derive(Copy, Clone, Debug, PartialEq, Eq)]
pub enum IpRange {
    Ipv4(Interval<IPv4>),
    Ipv6(Interval<IPv6>),
}

/// What a registry says it has done with a range.
#[derive(Copy, Clone, Debug, PartialEq, Eq)]
pub enum IpState {
    Assigned,
    Allocated,
    Reserved,
    Available,
    Unknown,
}

/// One record: a range, its state and the code it belongs to.
#[derive(Copy, Clone, Debug, PartialEq, Eq)]
pub struct Entity {
    pub range: IpRange,
    pub state: IpState,
    pub code: CountryRegionCode,
}

/// Why a record was not put into the maps.
#[derive(Copy, Clone, Debug, PartialEq, Eq)]
pub enum AddError {
    Ipv4(IntervalError<IPv4>),
    Ipv6(IntervalError<IPv6>),
}

/// Field `i` of a line, counted from zero. A line with too few fields has
/// empty fields after its last.
pub open spec fn field_text(line: Seq<u8>, i: nat) -> Seq<u8>
    decreases i,
{
    match cut(line, BAR) {
        Some((a, rest)) => if i == 0 {
            a
        } else {
            field_text(rest, (i - 1) as nat)
        },
        None => if i == 0 {
            line
        } else {
            Seq::empty()
        },
    }
}

/// The state that a status field names. An empty field names none, and any
/// word that is not one of the four known is `Unknown`.
pub open spec fn state_text(f: Seq<u8>) -> Option<IpState> {
    if f == "allocated".spec_bytes() {
        Some(IpState::Allocated)
    } else if f == "assigned".spec_bytes() {
        Some(IpState::Assigned)
    } else if f == "reserved".spec_bytes() {
        Some(IpState::Reserved)
    } else if f == "available".spec_bytes() {
        Some(IpState::Available)
    } else if f.len() == 0 {
        None
    } else {
        Some(IpState::Unknown)
    }
}

/// The `count` addresses from `start` on. One address is a point, and more
/// are a half-open range. The count is never wrapped around the end of the
/// address space: a range that ends with the last address is closed, and
/// one that would reach beyond it is no range. A count of zero gives the
/// empty range, which no map takes.
pub open spec fn ipv4_count_range(start: u32, count: u32) -> Option<Interval<IPv4>> {
    if count == 1 {
        Some(Interval::Scope(IPv4(start), IPv4(start)))
    } else if start + count <= u32::MAX {
        Some(Interval::Range(IPv4(start), IPv4((start + count) as u32)))
    } else if start + count == u32::MAX + 1 {
        Some(Interval::Scope(IPv4(start), IPv4(u32::MAX)))
    } else {
        None
    }
}

/// The range that an IPv4 record writes in its address and count fields.
pub open spec fn ipv4_range_text(ip: Seq<u8>, count: Seq<u8>) -> Option<Interval<IPv4>> {
    match (ipv4_text(ip), number_text(count)) {
        (Some(start), Some(n)) => if n <= u32::MAX {
            ipv4_count_range(start, n as u32)
        } else {
            None
        },
        _ => None,
    }
}

/// The range that an IPv6 record writes in its address and prefix length
/// fields: the block of addresses that share that prefix.
pub open spec fn ipv6_range_text(ip: Seq<u8>, prefix: Seq<u8>) -> Option<Interval<IPv6>> {
    match (ipv6_text(ip), number_text(prefix)) {
        (Some(start), Some(n)) => if n <= 255 {
            ipv6_block(start, n)
        } else {
            None
        },
        _ => None,
    }
}

/// The range that a record writes, by the family its third field names.
pub open spec fn range_text(family: Seq<u8>, ip: Seq<u8>, size: Seq<u8>) -> Option<IpRange> {
    if family == "ipv4".spec_bytes() {
        match ipv4_range_text(ip, size) {
            Some(k) => Some(IpRange::Ipv4(k)),
            None => None,
        }
    } else if family == "ipv6".spec_bytes() {
        match ipv6_range_text(ip, size) {
            Some(k) => Some(IpRange::Ipv6(k)),
            None => None,
        }
    } else {
        None
    }
}

/// The record that a line writes: its range, its state and the two bytes of
/// its code. A line that starts with `#` is a comment and writes none, and
/// neither does a line whose code is not two bytes of text, whose status
/// is missing, or whose family or range cannot be read.
pub open spec fn record_text(line: Seq<u8>) -> Option<(IpRange, IpState, Seq<u8>)> {
    if line.len() > 0 && line[0] == HASH {
        None
    } else if field_text(line, 1).len() != 2 || !valid_utf8(field_text(line, 1)) {
        None
    } else {
        match (
            state_text(field_text(line, 6)),
            range_text(field_text(line, 2), field_text(line, 3), field_text(line, 4)),
        ) {
            (Some(state), Some(range)) => Some((range, state, field_text(line, 1))),
            _ => None,
        }
    }
}

/// Field `i` of a line.
pub fn field(line: &[u8], i: usize) -> (r: &[u8])
    ensures
        r@ == field_text(line@, i as nat),
{
    let mut rest: &[u8] = line;
    let mut k: usize = i;
    loop
        invariant
            field_text(line@, i as nat) == field_text(rest@, k as nat),
        decreases k,
    {
        match split_first(rest, BAR) {
            Some((a, after)) => {
                if k == 0 {
                    return a;
                }
                rest = after;
                k -= 1;
            },
            None => {
                if k == 0 {
                    return rest;
                }
                return slice_subrange(rest, 0, 0);
            },
        }
    }
}

/// Whether two runs of bytes are the same.
pub fn same_bytes(a: &[u8], b: &[u8]) -> (r: bool)
    ensures
        r == (a@ == b@),
{
    if a.len() != b.len() {
        return false;
    }
    let mut i: usize = 0;
    while i < a.len()
        invariant
            a@.len() == b@.len(),
            0 <= i <= a@.len(),
            forall|j: int| 0 <= j < i ==> a@[j] == b@[j],
        decreases a@.len() - i,
    {
        if a[i] != b[i] {
            return false;
        }
        i += 1;
    }
    proof {
        assert(a@ =~= b@);
    }
    true
}

/// Reads the status field of a record.
pub fn parse_state(f: &[u8]) -> (r: Option<IpState>)
    ensures
        r == state_text(f@),
{
    if same_bytes(f, "allocated".as_bytes()) {
        Some(IpState::Allocated)
    } else if same_bytes(f, "assigned".as_bytes()) {
        Some(IpState::Assigned)
    } else if same_bytes(f, "reserved".as_bytes()) {
        Some(IpState::Reserved)
    } else if same_bytes(f, "available".as_bytes()) {
        Some(IpState::Available)
    } else if f.len() == 0 {
        None
    } else {
        Some(IpState::Unknown)
    }
}

/// Reads the address and count fields of an IPv4 record.
pub fn parse_ipv4_range(ip_str: &[u8], add: &[u8]) -> (r: Option<Interval<IPv4>>)
    ensures
        r == ipv4_range_text(ip_str@, add@),
{
    let ip = match parse_ipv4(ip_str) {
        Some(ip) => ip,
        None => { return None; },
    };
    let add = match parse_number(add, u32::MAX) {
        Some(n) => n,
        None => { return None; },
    };
    if add == 1 {
        Some(Interval::Scope(ip, ip))
    } else if add <= u32::MAX - ip.0 {
        Some(Interval::Range(ip, IPv4(ip.0 + add)))
    } else if add - 1 == u32::MAX - ip.0 {
        Some(Interval::Scope(ip, IPv4(u32::MAX)))
    } else {
        None
    }
}

/// Reads the address and prefix length fields of an IPv6 record.
pub fn parse_ipv6_range(ip_str: &[u8], mask: &[u8]) -> (r: Option<Interval<IPv6>>)
    ensures
        r == ipv6_range_text(ip_str@, mask@),
{
    let ip = match parse_ipv6(ip_str) {
        Some(ip) => ip,
        None => { return None; },
    };
    let mask = match parse_number(mask, 255) {
        Some(n) => n,
        None => { return None; },
    };
    ipv6_prefix_block(ip, mask as u8)
}

/// Reads one line of a registry file. Lines that write no usable record
/// give nothing.
pub fn parse_line(line: &String) -> (r: Option<Entity>)
    ensures
        match r {
            Some(e) => record_text(encode_utf8(line@)) == Some((e.range, e.state, e.code@)),
            None => record_text(encode_utf8(line@)).is_none(),
        },
{
    let text = line.as_str().as_bytes();
    if text.len() > 0 && text[0] == HASH {
        return None;
    }
    let code_field = field(text, 1);
    let code = match utf8_text(code_field) {
        Some(name) => match CountryRegionCode::new(name) {
            Some(code) => code,
            None => { return None; },
        },
        None => { return None; },
    };
    let state = match parse_state(field(text, 6)) {
        Some(state) => state,
        None => { return None; },
    };
    let family = field(text, 2);
    let range = if same_bytes(family, "ipv4".as_bytes()) {
        match parse_ipv4_range(field(text, 3), field(text, 4)) {
            Some(k) => IpRange::Ipv4(k),
            None => { return None; },
        }
    } else if same_bytes(family, "ipv6".as_bytes()) {
        match parse_ipv6_range(field(text, 3), field(text, 4)) {
            Some(k) => IpRange::Ipv6(k),
            None => { return None; },
        }
    } else {
        return None;
    };
    Some(Entity { range, state, code })
}


/// The answer of the IPv4 map under an answer to a record.
pub open spec fn ipv4_answer(r: Result<(), AddError>) -> Option<Result<(), IntervalError<IPv4>>> {
    match r {
        Ok(_) => Some(Ok(())),
        Err(AddError::Ipv4(e)) => Some(Err(e)),
        Err(AddError::Ipv6(_)) => None,
    }
}

/// The answer of the IPv6 map under an answer to a record.
pub open spec fn ipv6_answer(r: Result<(), AddError>) -> Option<Result<(), IntervalError<IPv6>>> {
    match r {
        Ok(_) => Some(Ok(())),
        Err(AddError::Ipv6(e)) => Some(Err(e)),
        Err(AddError::Ipv4(_)) => None,
    }
}

impl IpTree<CountryRegionCode> {
    /// Puts the range of a record into the map of its family, with the
    /// record's code. The other map is left as it is, and the answer is that
    /// of the insertion.
    pub fn add_entity(&mut self, entity: Entity) -> (r: Result<(), AddError>)
        ensures
            ordered(final(self).ipv4@),
            ordered(final(self).ipv6@),
            match entity.range {
                IpRange::Ipv4(k) => {
                    &&& final(self).ipv6@ == old(self).ipv6@
                    &&& match ipv4_answer(r) {
                        Some(a) => insertion(old(self).ipv4@, k, entity.code, a, final(self).ipv4@),
                        None => false,
                    }
                },
                IpRange::Ipv6(k) => {
                    &&& final(self).ipv4@ == old(self).ipv4@
                    &&& match ipv6_answer(r) {
                        Some(a) => insertion(old(self).ipv6@, k, entity.code, a, final(self).ipv6@),
                        None => false,
                    }
                },
            },
    {
        let _ = self.ipv4.tree();
        let _ = self.ipv6.tree();
        match entity.range {
            IpRange::Ipv4(k) => match self.ipv4.insert(k, entity.code) {
                Ok(_) => Ok(()),
                Err(e) => Err(AddError::Ipv4(e)),
            },
            IpRange::Ipv6(k) => match self.ipv6.insert(k, entity.code) {
                Ok(_) => Ok(()),
                Err(e) => Err(AddError::Ipv6(e)),
            },
        }
    }
}


/// Whether `name` ends with `.txt`, as the name of a registry file does.
pub open spec fn registry_file_name(name: Seq<u8>) -> bool {
    name.len() >= 4 && name.skip(name.len() - 4) == ".txt".spec_bytes()
}

/// Whether a file of this name is read when a directory is loaded.
pub fn is_registry_file_name(name: &str) -> (r: bool)
    ensures
        r == registry_file_name(name.spec_bytes()),
{
    let bytes = name.as_bytes();
    let n = bytes.len();
    if n < 4 {
        return false;
    }
    same_bytes(slice_subrange(bytes, n - 4, n), ".txt".as_bytes())
}

/// The entries of the two maps of an `IpTree`, IPv4 first.
pub type Maps = (Entries<IPv4, CountryRegionCode>, Entries<IPv6, CountryRegionCode>);

/// Whether the maps take the record that `line` writes. A line that writes
/// none is taken as it is.
#[verifier::opaque]
pub open spec fn line_fits(maps: Maps, line: Seq<u8>) -> bool {
    match record_text(line) {
        None => true,
        Some((IpRange::Ipv4(k), _, _)) => k.valid() && vacant(maps.0, k),
        Some((IpRange::Ipv6(k), _, _)) => k.valid() && vacant(maps.1, k),
    }
}

/// The maps after the record that `line` writes has been put in.
#[verifier::opaque]
pub open spec fn with_line(maps: Maps, line: Seq<u8>) -> Maps {
    match record_text(line) {
        None => maps,
        Some((IpRange::Ipv4(k), _, name)) => (inserted(maps.0, k, code_of(name)), maps.1),
        Some((IpRange::Ipv6(k), _, name)) => (maps.0, inserted(maps.1, k, code_of(name))),
    }
}

/// The maps after the records of the first `n` lines have been put in, one
/// after the other.
pub open spec fn with_lines(maps: Maps, lines: Seq<String>, n: int) -> Maps
    decreases n,
{
    if n <= 0 {
        maps
    } else {
        with_line(with_lines(maps, lines, n - 1), encode_utf8(lines[n - 1]@))
    }
}

/// Whether each of the first `n` lines is taken by the maps as the lines
/// before it have left them.
pub open spec fn lines_fit(maps: Maps, lines: Seq<String>, n: int) -> bool {
    forall|i: int|
        0 <= i < n ==> line_fits(#[trigger] with_lines(maps, lines, i), encode_utf8(lines[i]@))
}

/// Where the first `n` lines fit and the next one fits what they have left,
/// the first `n + 1` lines fit.
proof fn one_more_line(maps: Maps, lines: Seq<String>, n: int, held: Maps, next: Maps)
    requires
        0 <= n < lines.len(),
        lines_fit(maps, lines, n),
        held == with_lines(maps, lines, n),
        line_fits(held, encode_utf8(lines[n]@)),
        next == with_line(held, encode_utf8(lines[n]@)),
    ensures
        lines_fit(maps, lines, n + 1),
        next == with_lines(maps, lines, n + 1),
{
    assert forall|i: int| 0 <= i < n + 1 implies line_fits(
        #[trigger] with_lines(maps, lines, i),
        encode_utf8(lines[i]@),
    ) by {
        if i < n {
            assert(line_fits(with_lines(maps, lines, i), encode_utf8(lines[i]@)));
        }
    }
}

impl IpTree<CountryRegionCode> {
    /// The entries of both maps.
    pub open spec fn entries(&self) -> Maps {
        (self.ipv4@, self.ipv6@)
    }

    /// Reads one line of a registry file and puts its record in. A line
    /// that writes no record changes nothing and is no failure; a record
    /// that its map refuses is one, and changes nothing either.
    pub fn load_line(&mut self, line: &String) -> (r: Result<(), AddError>)
        ensures
            ordered(final(self).ipv4@),
            ordered(final(self).ipv6@),
            r.is_ok() <==> line_fits(old(self).entries(), encode_utf8(line@)),
            r.is_ok() ==> final(self).entries() == with_line(
                old(self).entries(),
                encode_utf8(line@),
            ),
            r.is_err() ==> final(self).entries() == old(self).entries(),
            match record_text(encode_utf8(line@)) {
                None => true,
                Some((IpRange::Ipv4(k), _, name)) => match ipv4_answer(r) {
                    Some(a) => insertion(old(self).ipv4@, k, code_of(name), a, final(self).ipv4@),
                    None => false,
                },
                Some((IpRange::Ipv6(k), _, name)) => match ipv6_answer(r) {
                    Some(a) => insertion(old(self).ipv6@, k, code_of(name), a, final(self).ipv6@),
                    None => false,
                },
            },
    {
        proof {
            reveal(line_fits);
            reveal(with_line);
        }
        match parse_line(line) {
            Some(entity) => {
                proof {
                    code_of_its_bytes(entity.code);
                }
                self.add_entity(entity)
            },
            None => {
                let _ = self.ipv4.tree();
                let _ = self.ipv6.tree();
                Ok(())
            },
        }
    }

    /// Reads the lines of a registry file in order and puts their records
    /// in, up to the first record that its map refuses. On such a record the
    /// load is given up: the answer names the line and the refusal, and the
    /// maps hold what the lines before it put in.
    pub fn load_lines(&mut self, lines: &Vec<String>) -> (r: Result<(), (usize, AddError)>)
        ensures
            ordered(final(self).ipv4@),
            ordered(final(self).ipv6@),
            match r {
                Ok(_) => {
                    &&& lines_fit(old(self).entries(), lines@, lines@.len() as int)
                    &&& final(self).entries() == with_lines(
                        old(self).entries(),
                        lines@,
                        lines@.len() as int,
                    )
                },
                Err((i, _)) => {
                    &&& i < lines@.len()
                    &&& lines_fit(old(self).entries(), lines@, i as int)
                    &&& final(self).entries() == with_lines(old(self).entries(), lines@, i as int)
                    &&& !line_fits(final(self).entries(), encode_utf8(lines@[i as int]@))
                },
            },
    {
        let _ = self.ipv4.tree();
        let _ = self.ipv6.tree();
        let ghost before = self.entries();
        let mut i: usize = 0;
        while i < lines.len()
            invariant
                0 <= i <= lines@.len(),
                before == old(self).entries(),
                ordered(self.ipv4@),
                ordered(self.ipv6@),
                lines_fit(before, lines@, i as int),
                self.entries() == with_lines(before, lines@, i as int),
            decreases lines@.len() - i,
        {
            let ghost held = self.entries();
            match self.load_line(&lines[i]) {
                Ok(_) => {},
                Err(e) => {
                    return Err((i, e));
                },
            }
            proof {
                one_more_line(before, lines@, i as int, held, self.entries());
            }
            i += 1;
        }
        Ok(())
    }
}

} // verus!
