//! The order of addresses: each kind is ordered by its packed value.

use std::cmp::Ordering;
use vstd::prelude::*;
use vstd::std_specs::cmp::PartialOrdSpec;
use crate::net::ethernet::MacAddress;
use crate::net::ipv4::Ipv4Address;
use crate::net::ipv6::Ipv6Address;

verus! {

impl PartialOrd for MacAddress {
    fn partial_cmp(&self, other: &MacAddress) -> (r: Option<Ordering>) {
        let a: u64 = self.get_prim();
        let b: u64 = other.get_prim();
        if a < b {
            Some(Ordering::Less)
        } else if a == b {
            Some(Ordering::Equal)
        } else {
            Some(Ordering::Greater)
        }
    }
}

impl vstd::std_specs::cmp::PartialOrdSpecImpl for MacAddress {
    open spec fn obeys_partial_cmp_spec() -> bool {
        true
    }

    /// Link-layer addresses are ordered as their packed values are.
    open spec fn partial_cmp_spec(&self, other: &MacAddress) -> Option<Ordering> {
        if self.prim() < other.prim() {
            Some(Ordering::Less)
        } else if self.prim() == other.prim() {
            Some(Ordering::Equal)
        } else {
            Some(Ordering::Greater)
        }
    }
}

impl PartialOrd for Ipv4Address {
    fn partial_cmp(&self, other: &Ipv4Address) -> (r: Option<Ordering>) {
        let a: u32 = self.get_prim();
        let b: u32 = other.get_prim();
        if a < b {
            Some(Ordering::Less)
        } else if a == b {
            Some(Ordering::Equal)
        } else {
            Some(Ordering::Greater)
        }
    }
}

impl vstd::std_specs::cmp::PartialOrdSpecImpl for Ipv4Address {
    open spec fn obeys_partial_cmp_spec() -> bool {
        true
    }

    /// IPv4 addresses are ordered as their integers are.
    open spec fn partial_cmp_spec(&self, other: &Ipv4Address) -> Option<Ordering> {
        if self.prim() < other.prim() {
            Some(Ordering::Less)
        } else if self.prim() == other.prim() {
            Some(Ordering::Equal)
        } else {
            Some(Ordering::Greater)
        }
    }
}

impl PartialOrd for Ipv6Address {
    fn partial_cmp(&self, other: &Ipv6Address) -> (r: Option<Ordering>) {
        let a: u128 = self.get_prim();
        let b: u128 = other.get_prim();
        if a < b {
            Some(Ordering::Less)
        } else if a == b {
            Some(Ordering::Equal)
        } else {
            Some(Ordering::Greater)
        }
    }
}

impl vstd::std_specs::cmp::PartialOrdSpecImpl for Ipv6Address {
    open spec fn obeys_partial_cmp_spec() -> bool {
        true
    }

    /// IPv6 addresses are ordered as their integers are.
    open spec fn partial_cmp_spec(&self, other: &Ipv6Address) -> Option<Ordering> {
        if self.prim() < other.prim() {
            Some(Ordering::Less)
        } else if self.prim() == other.prim() {
            Some(Ordering::Equal)
        } else {
            Some(Ordering::Greater)
        }
    }
}

/// The order of link-layer addresses is total and is that of their packed
/// values: of two addresses one is less than the other or they are the
/// same address, and what is less than something less is less.
pub proof fn law_mac_order(a: MacAddress, b: MacAddress, c: MacAddress)
    ensures
        a.partial_cmp_spec(&b) is Some,
        (a.partial_cmp_spec(&b) == Some(Ordering::Less)) == (a.prim() < b.prim()),
        (a.partial_cmp_spec(&b) == Some(Ordering::Equal)) == (a == b),
        (a.partial_cmp_spec(&b) == Some(Ordering::Greater)) == (b.partial_cmp_spec(&a) == Some(Ordering::Less)),
        a.partial_cmp_spec(&b) == Some(Ordering::Less) && b.partial_cmp_spec(&c) == Some(Ordering::Less)
            ==> a.partial_cmp_spec(&c) == Some(Ordering::Less),
{
    crate::net::ethernet::law_mac_prim_decides(a, b);
}

/// The order of IPv4 addresses is total and is that of their packed
/// values: of two addresses one is less than the other or they are the
/// same address, and what is less than something less is less.
pub proof fn law_ipv4_order(a: Ipv4Address, b: Ipv4Address, c: Ipv4Address)
    ensures
        a.partial_cmp_spec(&b) is Some,
        (a.partial_cmp_spec(&b) == Some(Ordering::Less)) == (a.prim() < b.prim()),
        (a.partial_cmp_spec(&b) == Some(Ordering::Equal)) == (a == b),
        (a.partial_cmp_spec(&b) == Some(Ordering::Greater)) == (b.partial_cmp_spec(&a) == Some(Ordering::Less)),
        a.partial_cmp_spec(&b) == Some(Ordering::Less) && b.partial_cmp_spec(&c) == Some(Ordering::Less)
            ==> a.partial_cmp_spec(&c) == Some(Ordering::Less),
{
    crate::net::ipv4::law_ipv4_prim_decides(a, b);
}

/// The order of IPv6 addresses is total and is that of their packed
/// values: of two addresses one is less than the other or they are the
/// same address, and what is less than something less is less.
pub proof fn law_ipv6_order(a: Ipv6Address, b: Ipv6Address, c: Ipv6Address)
    ensures
        a.partial_cmp_spec(&b) is Some,
        (a.partial_cmp_spec(&b) == Some(Ordering::Less)) == (a.prim() < b.prim()),
        (a.partial_cmp_spec(&b) == Some(Ordering::Equal)) == (a == b),
        (a.partial_cmp_spec(&b) == Some(Ordering::Greater)) == (b.partial_cmp_spec(&a) == Some(Ordering::Less)),
        a.partial_cmp_spec(&b) == Some(Ordering::Less) && b.partial_cmp_spec(&c) == Some(Ordering::Less)
            ==> a.partial_cmp_spec(&c) == Some(Ordering::Less),
{
    crate::net::ipv6::law_ipv6_prim_decides(a, b);
}

} // verus!
