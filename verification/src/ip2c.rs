//! IPv4 and IPv6 addresses as scalars, and a pair of interval maps keyed by
//! them.

use vstd::prelude::*;
use crate::itree::{Entries, IntervalTreeMap};
use crate::scalar::Scalar;

verus! {

/// An IPv4 address, as the number its four octets write, first octet
/// highest.
#[derive(Copy, Clone, Debug, PartialEq, Eq, PartialOrd, Ord)]
pub struct IPv4(pub u32);

/// An IPv6 address, as the number its sixteen octets write, first octet
/// highest.
#[derive(Copy, Clone, Debug, PartialEq, Eq, PartialOrd, Ord)]
pub struct IPv6(pub u128);

impl Scalar for IPv4 {
    open spec fn value(self) -> int {
        self.0 as int
    }

    proof fn value_is_injective(self, other: Self) {
    }

    fn less_than(&self, other: &Self) -> (b: bool) {
        self.0 < other.0
    }
}

impl Scalar for IPv6 {
    open spec fn value(self) -> int {
        self.0 as int
    }

    proof fn value_is_injective(self, other: Self) {
    }

    fn less_than(&self, other: &Self) -> (b: bool) {
        self.0 < other.0
    }
}

impl From<u32> for IPv4 {
    fn from(i: u32) -> (r: Self) {
        IPv4(i)
    }
}

impl vstd::std_specs::convert::FromSpecImpl<u32> for IPv4 {
    open spec fn obeys_from_spec() -> bool {
        true
    }

    open spec fn from_spec(i: u32) -> Self {
        IPv4(i)
    }
}

impl From<u128> for IPv6 {
    fn from(i: u128) -> (r: Self) {
        IPv6(i)
    }
}

impl vstd::std_specs::convert::FromSpecImpl<u128> for IPv6 {
    open spec fn obeys_from_spec() -> bool {
        true
    }

    open spec fn from_spec(i: u128) -> Self {
        IPv6(i)
    }
}

impl From<IPv4> for u32 {
    fn from(ip: IPv4) -> (r: Self) {
        ip.0
    }
}

impl vstd::std_specs::convert::FromSpecImpl<IPv4> for u32 {
    open spec fn obeys_from_spec() -> bool {
        true
    }

    open spec fn from_spec(ip: IPv4) -> Self {
        ip.0
    }
}

impl From<IPv6> for u128 {
    fn from(ip: IPv6) -> (r: Self) {
        ip.0
    }
}

impl vstd::std_specs::convert::FromSpecImpl<IPv6> for u128 {
    open spec fn obeys_from_spec() -> bool {
        true
    }

    open spec fn from_spec(ip: IPv6) -> Self {
        ip.0
    }
}

/// An interval map keyed by IPv4 addresses.
pub type Ipv4Tree<T> = IntervalTreeMap<IPv4, T>;

/// An interval map keyed by IPv6 addresses.
pub type Ipv6Tree<T> = IntervalTreeMap<IPv6, T>;

/// An interval map for each of the two address families.
pub struct IpTree<T> {
    pub ipv4: Ipv4Tree<T>,
    pub ipv6: Ipv6Tree<T>,
}

impl<T> IpTree<T> {
    /// A pair of empty maps.
    pub fn new() -> (r: Self)
        ensures
            r.ipv4@ == Entries::<IPv4, T>::empty(),
            r.ipv6@ == Entries::<IPv6, T>::empty(),
    {
        IpTree { ipv4: IntervalTreeMap::new(), ipv6: IntervalTreeMap::new() }
    }
}

} // verus!
