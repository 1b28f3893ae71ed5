//! CIDR-form network addresses as plain data.
//!
//! An address is held as the big-endian integer of its bits plus a prefix
//! length, so everything about it is visible to the verifier.  Parsing
//! CIDR text is delegated to the `ipnet` crate behind a trusted wrapper.

use vstd::prelude::*;

verus! {

/// An IP address: the big-endian integer of its bits.
#[derive(Clone, Copy, PartialEq, Eq, Structural, Debug)]
pub enum IpAddress {
    V4(u32),
    V6(u128),
}

/// A CIDR-form network address: an address plus prefix length, scoped to
/// whatever interface the query that produced it named.
#[derive(Clone, Copy, PartialEq, Eq, Structural, Debug)]
pub struct CidrAddr {
    pub addr: IpAddress,
    pub prefix_len: u8,
}

impl CidrAddr {
    /// The prefix length fits the address family's bit width.
    pub open spec fn wf(self) -> bool {
        match self.addr {
            IpAddress::V4(_) => self.prefix_len <= 32,
            IpAddress::V6(_) => self.prefix_len <= 128,
        }
    }
}

/// What `ipnet::IpNet::from_str` parses given CIDR text to; a function of
/// the text alone.
pub uninterp spec fn cidr_of(s: Seq<u8>) -> Option<CidrAddr>;

/// Relies on `ipnet::IpNet::from_str`: parses `address/prefix` text and
/// rejects a prefix length beyond the address family's bit width.
#[verifier::external_body]
pub(crate) fn parse_cidr(s: &[u8]) -> (r: Option<CidrAddr>)
    ensures
        r == cidr_of(s@),
        r matches Some(c) ==> c.wf(),
{
    let text = match core::str::from_utf8(s) {
        Ok(t) => t,
        Err(_) => return None,
    };
    match text.parse::<ipnet::IpNet>() {
        Ok(ipnet::IpNet::V4(n)) => Some(
            CidrAddr { addr: IpAddress::V4(u32::from(n.addr())), prefix_len: n.prefix_len() },
        ),
        Ok(ipnet::IpNet::V6(n)) => Some(
            CidrAddr { addr: IpAddress::V6(u128::from(n.addr())), prefix_len: n.prefix_len() },
        ),
        Err(_) => None,
    }
}

} // verus!
