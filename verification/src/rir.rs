//! Country and region codes by IP address, as the regional internet
//! registries publish them.

pub mod parse;

use vstd::prelude::*;
use vstd::array::array_as_slice;
use vstd::string::StringSliceAdditionalSpecFns;
use vstd::utf8::valid_utf8;
use crate::ip2c::{IPv4, IPv6, IpTree};
use crate::itree::value_at;

verus! {

/// A code for the name of a country or region: two bytes of text.
///
/// Its view is those two bytes.
#[derive(Copy, Clone, Debug, PartialEq, Eq)]
pub struct CountryRegionCode {
    raw: [u8; 2],
}

impl View for CountryRegionCode {
    type V = Seq<u8>;

    closed spec fn view(&self) -> Seq<u8> {
        self.raw@
    }
}

/// `core::str::from_utf8`: the bytes as text where they are UTF-8, and
/// nothing where they are not. The text has the bytes it was made from.
#[verifier::external_body]
pub(crate) fn utf8_text(raw: &[u8]) -> (r: Option<&str>)
    ensures
        r.is_some() == valid_utf8(raw@),
        match r {
            Some(t) => t.spec_bytes() == raw@,
            None => true,
        },
{
    match core::str::from_utf8(raw) {
        Ok(t) => Some(t),
        Err(_) => None,
    }
}

impl CountryRegionCode {
    #[verifier::type_invariant]
    spec fn is_text(self) -> bool {
        valid_utf8(self.raw@)
    }

    /// The code that `name` writes, where `name` is two bytes long.
    pub fn new(name: &str) -> (r: Option<CountryRegionCode>)
        ensures
            match r {
                Some(code) => name.spec_bytes().len() == 2 && code@ == name.spec_bytes(),
                None => name.spec_bytes().len() != 2,
            },
    {
        let bytes = name.as_bytes();
        if bytes.len() == 2 {
            let raw = [bytes[0], bytes[1]];
            proof {
                vstd::utf8::encode_utf8_valid_utf8(name@);
                assert(raw@ =~= name.spec_bytes());
            }
            Some(CountryRegionCode { raw })
        } else {
            None
        }
    }

    /// The code as text.
    pub fn name(&self) -> (r: &str)
        ensures
            r.spec_bytes() == self@,
            self@.len() == 2,
    {
        proof {
            use_type_invariant(self);
        }
        match utf8_text(array_as_slice(&self.raw)) {
            Some(t) => t,
            // Never taken: the two bytes of a code are text.
            None => "",
        }
    }
}

/// The code whose two bytes are `name`.
pub open spec fn code_of(name: Seq<u8>) -> CountryRegionCode {
    choose|code: CountryRegionCode| code@ == name
}

/// A code is known by its two bytes.
pub proof fn code_of_its_bytes(code: CountryRegionCode)
    ensures
        code_of(code@) == code,
{
    let other = code_of(code@);
    assert(other@ == code@);
    assert(other.raw@ =~= code.raw@);
    assert(other.raw =~= code.raw);
}

/// The codes of both address families.
pub type IpCodeMap = IpTree<CountryRegionCode>;

/// An address of either family.
#[derive(Copy, Clone, Debug, PartialEq, Eq)]
pub enum IpAddress {
    V4(IPv4),
    V6(IPv6),
}

impl IpTree<CountryRegionCode> {
    /// The code of the interval that contains `ip`, in the map of its
    /// family.
    pub fn query(&self, ip: IpAddress) -> (r: Option<CountryRegionCode>)
        ensures
            r == match ip {
                IpAddress::V4(a) => value_at(self.ipv4@, a),
                IpAddress::V6(a) => value_at(self.ipv6@, a),
            },
    {
        match ip {
            IpAddress::V4(a) => match self.ipv4.query(a) {
                Some(code) => Some(*code),
                None => None,
            },
            IpAddress::V6(a) => match self.ipv6.query(a) {
                Some(code) => Some(*code),
                None => None,
            },
        }
    }
}

} // verus!
