//! Point lookup over disjoint intervals, and its use for mapping IP
//! addresses to the codes of countries and regions.
//!
//! [`itree`] holds the intervals, the relation that orders them and the map
//! built on it; [`order`] states what holds of the map's entries whatever
//! is put in or taken out. [`ip2c`] makes IPv4 and IPv6 addresses the
//! scalars of such maps, [`addr`] reads addresses from text, [`util`] reads
//! ranges of addresses, and [`rir`] reads the records of registry files.

pub mod scalar;
pub mod itree;
pub mod order;
pub mod text;
pub mod ip2c;
pub mod addr;
pub mod util;
pub mod rir;

pub use crate::ip2c::{IPv4, IPv6, IpTree, Ipv4Tree, Ipv6Tree};
pub use crate::itree::{Interval, IntervalError, IntervalTreeMap};
