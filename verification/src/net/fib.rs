//! The forwarding tables: longest-prefix route indexes for IPv4 and IPv6,
//! the two neighbour tables and the table of link-layer addresses.

use vstd::prelude::*;
use std::collections::BTreeMap;
use crate::net::ethernet::MacAddress;
use crate::net::ipv4::{Ipv4Address, ipv4_netmask, lemma_ipv4_from_octets, lemma_ipv4_mask};
use crate::net::ipv6::{Ipv6Address, ipv6_netmask, lemma_ipv6_mask};
use crate::net::ethernet::lemma_mac_from_octets;

verus! {

/// What a route leads to.
#[derive(Debug, Copy, Clone, PartialEq, Eq, Structural)]
pub enum FIBType {
    /// A destination behind a gateway.
    Remote,
    /// A destination on a directly attached network, not yet resolved.
    Adjacent,
    /// A neighbour whose link-layer address is known.
    AdjacentResolved,
    /// An address of this host.
    Local,
}

/// A neighbour entry: the link-layer address, the interface it is reached
/// through, whether the address is this host's own, and when the entry
/// expires. An entry without expiry is permanent.
#[derive(Debug, Copy, Clone, PartialEq, Eq, Structural)]
pub struct AdjacentInformation {
    pub mac_address: MacAddress,
    pub netif: usize,
    pub is_local: bool,
    pub expire_time: Option<u64>,
}

impl AdjacentInformation {
    pub fn new(mac_address: MacAddress, netif: usize, is_local: bool, expire_time: Option<u64>) -> (r:
        AdjacentInformation)
        ensures
            r == (AdjacentInformation { mac_address, netif, is_local, expire_time }),
    {
        AdjacentInformation { mac_address, netif, is_local, expire_time }
    }

    pub fn get_macaddress(&self) -> (r: MacAddress)
        ensures
            r == self.mac_address,
    {
        self.mac_address
    }

    pub fn get_netif(&self) -> (r: usize)
        ensures
            r == self.netif,
    {
        self.netif
    }

    pub fn is_local(&self) -> (r: bool)
        ensures
            r == self.is_local,
    {
        self.is_local
    }

    pub fn get_expire_time(&self) -> (r: Option<u64>)
        ensures
            r == self.expire_time,
    {
        self.expire_time
    }
}

/// The table after one registration of `entry` under `key`: a permanent
/// entry stays as it is, and in every other case the new entry is stored.
pub open spec fn adjacency_after<K>(table: Map<K, AdjacentInformation>, key: K, entry: AdjacentInformation) -> Map<
    K,
    AdjacentInformation,
> {
    if table.contains_key(key) && table[key].expire_time is None {
        table
    } else {
        table.insert(key, entry)
    }
}

/// The table after the registrations of `calls`, first to last.
pub open spec fn adjacency_after_all<K>(table: Map<K, AdjacentInformation>, calls: Seq<(K, AdjacentInformation)>) -> Map<
    K,
    AdjacentInformation,
>
    decreases calls.len(),
{
    if calls.len() == 0 {
        table
    } else {
        adjacency_after(adjacency_after_all(table, calls.drop_last()), calls.last().0, calls.last().1)
    }
}

/// A permanent entry survives every registration, whatever its key and
/// whatever it would store.
pub proof fn law_permanent_entry_stays<K>(
    table: Map<K, AdjacentInformation>,
    key: K,
    calls: Seq<(K, AdjacentInformation)>,
)
    requires
        table.contains_key(key),
        table[key].expire_time is None,
    ensures
        adjacency_after_all(table, calls).contains_key(key),
        adjacency_after_all(table, calls)[key] == table[key],
    decreases calls.len(),
{
    if calls.len() > 0 {
        law_permanent_entry_stays(table, key, calls.drop_last());
    }
}

/// Registering an entry without expiry leaves a permanent entry under its
/// key: the one just given, or the permanent one that was there before.
pub proof fn law_permanent_registration<K>(table: Map<K, AdjacentInformation>, key: K, entry: AdjacentInformation)
    requires
        entry.expire_time is None,
    ensures
        adjacency_after(table, key, entry).contains_key(key),
        adjacency_after(table, key, entry)[key].expire_time is None,
        !(table.contains_key(key) && table[key].expire_time is None) ==> adjacency_after(table, key, entry)[key]
            == entry,
{
}

/// The neighbour table of IPv4: address to neighbour entry.
pub struct Ipv4AdjacentTable {
    entries: BTreeMap<u32, AdjacentInformation>,
}

impl Ipv4AdjacentTable {
    /// The table as a map from the address, as an integer, to its entry.
    pub closed spec fn view(&self) -> Map<u32, AdjacentInformation> {
        self.entries@
    }

    pub fn new() -> (r: Ipv4AdjacentTable)
        ensures
            r@ == Map::<u32, AdjacentInformation>::empty(),
    {
        Ipv4AdjacentTable { entries: BTreeMap::new() }
    }

    /// The entry of `ip_address`, if it has one.
    pub fn get(&self, ip_address: &Ipv4Address) -> (r: Option<AdjacentInformation>)
        ensures
            r == (if self@.contains_key(ip_address.prim()) {
                Some(self@[ip_address.prim()])
            } else {
                None
            }),
    {
        let key: u32 = ip_address.get_prim();
        match self.entries.get(&key) {
            Some(adj) => Some(*adj),
            None => None,
        }
    }
}

/// Records `mac_address` as the neighbour entry of `ip_address`, unless
/// the address has a permanent entry.
pub fn register_ipv4_adjacent(
    table: &mut Ipv4AdjacentTable,
    ip_address: Ipv4Address,
    mac_address: MacAddress,
    netif: usize,
    is_local: bool,
    expire_time: Option<u64>,
)
    ensures
        final(table)@ == adjacency_after(
            old(table)@,
            ip_address.prim(),
            AdjacentInformation { mac_address, netif, is_local, expire_time },
        ),
{
    let key: u32 = ip_address.get_prim();
    let permanent = match table.entries.get(&key) {
        Some(adj) => adj.get_expire_time().is_none(),
        None => false,
    };
    if !permanent {
        table.entries.insert(key, AdjacentInformation::new(mac_address, netif, is_local, expire_time));
    }
}

/// The neighbour table of IPv6: address to neighbour entry.
pub struct Ipv6AdjacentTable {
    entries: BTreeMap<u128, AdjacentInformation>,
}

impl Ipv6AdjacentTable {
    /// The table as a map from the address, as an integer, to its entry.
    pub closed spec fn view(&self) -> Map<u128, AdjacentInformation> {
        self.entries@
    }

    pub fn new() -> (r: Ipv6AdjacentTable)
        ensures
            r@ == Map::<u128, AdjacentInformation>::empty(),
    {
        Ipv6AdjacentTable { entries: BTreeMap::new() }
    }

    /// The entry of `ip_address`, if it has one.
    pub fn get(&self, ip_address: &Ipv6Address) -> (r: Option<AdjacentInformation>)
        ensures
            r == (if self@.contains_key(ip_address.prim()) {
                Some(self@[ip_address.prim()])
            } else {
                None
            }),
    {
        let key: u128 = ip_address.get_prim();
        match self.entries.get(&key) {
            Some(adj) => Some(*adj),
            None => None,
        }
    }
}

/// Records `mac_address` as the neighbour entry of `ip_address`, unless
/// the address has a permanent entry.
pub fn register_ipv6_adjacent(
    table: &mut Ipv6AdjacentTable,
    ip_address: Ipv6Address,
    mac_address: MacAddress,
    netif: usize,
    is_local: bool,
    expire_time: Option<u64>,
)
    ensures
        final(table)@ == adjacency_after(
            old(table)@,
            ip_address.prim(),
            AdjacentInformation { mac_address, netif, is_local, expire_time },
        ),
{
    let key: u128 = ip_address.get_prim();
    let permanent = match table.entries.get(&key) {
        Some(adj) => adj.get_expire_time().is_none(),
        None => false,
    };
    if !permanent {
        table.entries.insert(key, AdjacentInformation::new(mac_address, netif, is_local, expire_time));
    }
}

/// The table of link-layer addresses: which interface an address was seen
/// on, and whether it is one of this host's own.
pub struct MacAddressTable {
    entries: BTreeMap<u64, AdjacentInformation>,
}

impl MacAddressTable {
    /// The table as a map from the packed address to its entry.
    pub closed spec fn view(&self) -> Map<u64, AdjacentInformation> {
        self.entries@
    }

    pub fn new() -> (r: MacAddressTable)
        ensures
            r@ == Map::<u64, AdjacentInformation>::empty(),
    {
        MacAddressTable { entries: BTreeMap::new() }
    }

    /// The entry of `mac_address`, if it has one.
    pub fn get(&self, mac_address: &MacAddress) -> (r: Option<AdjacentInformation>)
        ensures
            r == (if self@.contains_key(mac_address.prim()) {
                Some(self@[mac_address.prim()])
            } else {
                None
            }),
    {
        let key: u64 = mac_address.get_prim();
        match self.entries.get(&key) {
            Some(adj) => Some(*adj),
            None => None,
        }
    }
}

/// Records `mac_address` as seen on `netif`, unless the address has a
/// permanent entry.
pub fn register_macaddress(
    table: &mut MacAddressTable,
    mac_address: MacAddress,
    netif: usize,
    is_local: bool,
    expire_time: Option<u64>,
)
    ensures
        final(table)@ == adjacency_after(
            old(table)@,
            mac_address.prim(),
            AdjacentInformation { mac_address, netif, is_local, expire_time },
        ),
{
    let key: u64 = mac_address.get_prim();
    let permanent = match table.entries.get(&key) {
        Some(adj) => adj.get_expire_time().is_none(),
        None => false,
    };
    if !permanent {
        table.entries.insert(key, AdjacentInformation::new(mac_address, netif, is_local, expire_time));
    }
}

/// A route of IPv4: the next hop's link-layer and network addresses, the
/// interface the route leaves through, and what the route leads to.
#[derive(Debug, Copy, Clone, PartialEq, Eq, Structural)]
pub struct ForwardInformationBaseIpv4 {
    pub nexthop_macaddress: MacAddress,
    pub nexthop_address: Ipv4Address,
    pub netif: usize,
    pub fib_type: FIBType,
}

impl ForwardInformationBaseIpv4 {
    pub fn new(nexthop_macaddress: MacAddress, nexthop_address: Ipv4Address, netif: usize, fib_type: FIBType) -> (r:
        ForwardInformationBaseIpv4)
        ensures
            r == (ForwardInformationBaseIpv4 { nexthop_macaddress, nexthop_address, netif, fib_type }),
    {
        ForwardInformationBaseIpv4 { nexthop_macaddress, nexthop_address, netif, fib_type }
    }

    pub fn get_nexthop_macaddress(&self) -> (r: MacAddress)
        ensures
            r == self.nexthop_macaddress,
    {
        self.nexthop_macaddress
    }

    pub fn get_nexthop_address(&self) -> (r: Ipv4Address)
        ensures
            r == self.nexthop_address,
    {
        self.nexthop_address
    }

    pub fn get_netif(&self) -> (r: usize)
        ensures
            r == self.netif,
    {
        self.netif
    }

    pub fn get_fib_type(&self) -> (r: FIBType)
        ensures
            r == self.fib_type,
    {
        self.fib_type
    }
}

/// Whether the routes of prefix length `k` hold one that covers `addr`.
pub open spec fn ipv4_covers(slots: Seq<Map<u32, ForwardInformationBaseIpv4>>, addr: u32, k: nat) -> bool {
    slots[k as int].contains_key(addr & ipv4_netmask(k as u32))
}

/// The route of prefix length `k` that covers `addr`.
pub open spec fn ipv4_route(slots: Seq<Map<u32, ForwardInformationBaseIpv4>>, addr: u32, k: nat) -> ForwardInformationBaseIpv4 {
    slots[k as int][addr & ipv4_netmask(k as u32)]
}

/// The longest prefix length, from `start` downwards, at which a route
/// covers `addr`.
pub open spec fn ipv4_match_length(slots: Seq<Map<u32, ForwardInformationBaseIpv4>>, addr: u32, start: nat) -> Option<nat>
    decreases start,
{
    if ipv4_covers(slots, addr, start) {
        Some(start)
    } else if start == 0 {
        None
    } else {
        ipv4_match_length(slots, addr, (start - 1) as nat)
    }
}

/// The route that a lookup of `addr` gives when it starts at prefix length
/// `start`: the one of the longest covering prefix.
pub open spec fn ipv4_longest_match(slots: Seq<Map<u32, ForwardInformationBaseIpv4>>, addr: u32, start: nat) -> Option<
    ForwardInformationBaseIpv4,
> {
    match ipv4_match_length(slots, addr, start) {
        Some(k) => Some(ipv4_route(slots, addr, k)),
        None => None,
    }
}

/// What `ipv4_match_length` finds is the greatest covering length that is
/// not above `start`; it finds nothing only where no length covers.
pub proof fn lemma_ipv4_match_length(slots: Seq<Map<u32, ForwardInformationBaseIpv4>>, addr: u32, start: nat)
    ensures
        match ipv4_match_length(slots, addr, start) {
            Some(k) => {
                &&& k <= start
                &&& ipv4_covers(slots, addr, k)
                &&& forall|q: nat| k < q <= start ==> !ipv4_covers(slots, addr, q)
            },
            None => forall|q: nat| q <= start ==> !ipv4_covers(slots, addr, q),
        },
    decreases start,
{
    if !ipv4_covers(slots, addr, start) && start > 0 {
        lemma_ipv4_match_length(slots, addr, (start - 1) as nat);
    }
}

/// Longest match: where a shorter and a longer prefix both cover `addr`,
/// a lookup that starts at or above the longer never answers with the shorter
/// one. It answers with the route of the greatest covering length, which is
/// the route of `longer` where no prefix above it covers the address.
pub proof fn law_ipv4_longest_match(slots: Seq<Map<u32, ForwardInformationBaseIpv4>>, addr: u32, start: nat, shorter: nat, longer: nat)
    requires
        shorter < longer <= start,
        ipv4_covers(slots, addr, shorter),
        ipv4_covers(slots, addr, longer),
    ensures
        ipv4_match_length(slots, addr, start) matches Some(k) && longer <= k <= start && ipv4_longest_match(
            slots,
            addr,
            start,
        ) == Some(ipv4_route(slots, addr, k)),
        (forall|q: nat| longer < q <= start ==> !ipv4_covers(slots, addr, q)) ==> ipv4_longest_match(slots, addr, start)
            == Some(ipv4_route(slots, addr, longer)),
{
    lemma_ipv4_match_length(slots, addr, start);
}

/// The routes of IPv4, one map for each prefix length from 0 to 32. The map
/// of length `k` is keyed by the address with all but its first `k` bits
/// cleared.
pub struct Ipv4FibIndex {
    slots: Vec<BTreeMap<u32, ForwardInformationBaseIpv4>>,
}

impl Ipv4FibIndex {
    /// The maps by prefix length, each from the masked address, as an
    /// integer, to the route.
    pub closed spec fn view(&self) -> Seq<Map<u32, ForwardInformationBaseIpv4>> {
        Seq::new(self.slots@.len(), |k: int| self.slots@[k]@)
    }

    /// There is one map for each prefix length, and every key is masked to
    /// the length of its map.
    pub open spec fn wf(&self) -> bool {
        &&& self@.len() == 33
        &&& forall|k: int, key: u32|
            0 <= k < 33 && #[trigger] self@[k].contains_key(key) ==> key & ipv4_netmask(k as u32) == key
    }

    pub fn new() -> (r: Ipv4FibIndex)
        ensures
            r.wf(),
            forall|k: int| 0 <= k < 33 ==> r@[k] == Map::<u32, ForwardInformationBaseIpv4>::empty(),
    {
        let mut slots: Vec<BTreeMap<u32, ForwardInformationBaseIpv4>> = Vec::new();
        let mut k: usize = 0;
        while k < 33
            invariant
                k <= 33,
                slots@.len() == k,
                forall|j: int| 0 <= j < k ==> (#[trigger] slots@[j])@ == Map::<u32, ForwardInformationBaseIpv4>::empty(),
            decreases 33 - k,
        {
            slots.push(BTreeMap::new());
            k += 1;
        }
        Ipv4FibIndex { slots }
    }
}

/// The prefix length that `mask` stands for, searched from `p` downwards:
/// the greatest length whose network mask is `mask`, and 0 where there is
/// none.
pub open spec fn ipv4_prefixlen_from(mask: u32, p: nat) -> nat
    decreases p,
{
    if p == 0 {
        0
    } else if ipv4_netmask(p as u32) == mask {
        p
    } else {
        ipv4_prefixlen_from(mask, (p - 1) as nat)
    }
}

/// The prefix length of a network mask; 0 for a mask whose set bits are
/// not the leading ones.
pub open spec fn ipv4_mask_prefixlen(mask: u32) -> nat {
    ipv4_prefixlen_from(mask, 32)
}

pub proof fn lemma_ipv4_prefixlen_bound(mask: u32, p: nat)
    ensures
        ipv4_prefixlen_from(mask, p) <= p,
    decreases p,
{
    if p > 0 && ipv4_netmask(p as u32) != mask {
        lemma_ipv4_prefixlen_bound(mask, (p - 1) as nat);
    }
}

/// The all-ones mask is the mask of a host route.
pub proof fn lemma_ipv4_host_mask()
    ensures
        ipv4_mask_prefixlen(0xffff_ffffu32) == 32,
        ipv4_netmask(32) == 0xffff_ffffu32,
        is_ipv4_netmask(0xffff_ffffu32),
{
    assert(0xffff_ffffu32 << 0u32 == 0xffff_ffffu32) by (bit_vector);
}

/// The prefix length of a network mask; 0 for a mask whose set bits are
/// not the leading ones.
pub fn ipv4_mask_to_prefixlen(mask: u32) -> (r: usize)
    ensures
        r == ipv4_mask_prefixlen(mask),
        r <= 32,
{
    let mut p: u32 = 32;
    while p > 0
        invariant
            p <= 32,
            ipv4_mask_prefixlen(mask) == ipv4_prefixlen_from(mask, p as nat),
        decreases p,
    {
        if (0xffff_ffffu32 << (32 - p)) == mask {
            proof {
                lemma_ipv4_prefixlen_bound(mask, 32);
            }
            return p as usize;
        }
        p -= 1;
    }
    0
}

/// Whether `mask` is a network mask: its set bits are the leading ones.
pub open spec fn is_ipv4_netmask(mask: u32) -> bool {
    ipv4_netmask(ipv4_mask_prefixlen(mask) as u32) == mask
}

/// Stores a route to the network of `ip_address` under `mask`. A mask
/// that is no network mask names no network, and the table is left as it
/// is.
pub fn register_ipv4_fib(
    index: &mut Ipv4FibIndex,
    ip_address: Ipv4Address,
    mask: u32,
    nexthop_macaddress: MacAddress,
    nexthop_address: Ipv4Address,
    netif: usize,
    fib_type: FIBType,
)
    requires
        old(index).wf(),
    ensures
        final(index).wf(),
        final(index)@ == (if is_ipv4_netmask(mask) {
            old(index)@.update(
                ipv4_mask_prefixlen(mask) as int,
                old(index)@[ipv4_mask_prefixlen(mask) as int].insert(
                    ip_address.prim() & mask,
                    ForwardInformationBaseIpv4 { nexthop_macaddress, nexthop_address, netif, fib_type },
                ),
            )
        } else {
            old(index)@
        }),
{
    let fib_index: usize = ipv4_mask_to_prefixlen(mask);
    let network: u32 = if fib_index == 0 {
        0
    } else {
        0xffff_ffffu32 << (32 - fib_index as u32)
    };
    if network != mask {
        return ;
    }
    let key: u32 = ip_address.masked(fib_index as u32).get_prim();
    let entry = ForwardInformationBaseIpv4::new(nexthop_macaddress, nexthop_address, netif, fib_type);
    index.slots[fib_index].insert(key, entry);
    proof {
        lemma_ipv4_mask(ip_address.prim(), fib_index as u32);
        assert(index@ =~= old(index)@.update(fib_index as int, old(index)@[fib_index as int].insert(key, entry)));
    }
}

/// Looks `ip_address` up, starting at the prefix length of `mask` and going
/// down to 0: the first hit is the answer.
pub fn find_ipv4_fib<'a>(index: &'a Ipv4FibIndex, ip_address: &Ipv4Address, mask: u32) -> (r: Option<
    &'a ForwardInformationBaseIpv4,
>)
    requires
        index.wf(),
    ensures
        match r {
            Some(fib) => ipv4_longest_match(index@, ip_address.prim(), ipv4_mask_prefixlen(mask)) == Some(*fib),
            None => ipv4_longest_match(index@, ip_address.prim(), ipv4_mask_prefixlen(mask)) is None,
        },
{
    let mut fib_index: usize = ipv4_mask_to_prefixlen(mask);
    loop
        invariant
            index.wf(),
            fib_index <= 32,
            ipv4_match_length(index@, ip_address.prim(), ipv4_mask_prefixlen(mask)) == ipv4_match_length(
                index@,
                ip_address.prim(),
                fib_index as nat,
            ),
        decreases fib_index,
    {
        let key: u32 = ip_address.masked(fib_index as u32).get_prim();
        if let Some(fib) = index.slots[fib_index].get(&key) {
            return Some(fib);
        }
        if fib_index == 0 {
            return None;
        }
        fib_index = fib_index - 1;
    }
}

/// A route of IPv6: the next hop's link-layer and network addresses, the
/// interface the route leaves through, and what the route leads to.
#[derive(Debug, Copy, Clone, PartialEq, Eq, Structural)]
pub struct ForwardInformationBaseIpv6 {
    pub nexthop_macaddress: MacAddress,
    pub nexthop_address: Ipv6Address,
    pub netif: usize,
    pub fib_type: FIBType,
}

impl ForwardInformationBaseIpv6 {
    pub fn new(nexthop_macaddress: MacAddress, nexthop_address: Ipv6Address, netif: usize, fib_type: FIBType) -> (r:
        ForwardInformationBaseIpv6)
        ensures
            r == (ForwardInformationBaseIpv6 { nexthop_macaddress, nexthop_address, netif, fib_type }),
    {
        ForwardInformationBaseIpv6 { nexthop_macaddress, nexthop_address, netif, fib_type }
    }

    pub fn get_nexthop_macaddress(&self) -> (r: MacAddress)
        ensures
            r == self.nexthop_macaddress,
    {
        self.nexthop_macaddress
    }

    pub fn get_nexthop_address(&self) -> (r: Ipv6Address)
        ensures
            r == self.nexthop_address,
    {
        self.nexthop_address
    }

    pub fn get_netif(&self) -> (r: usize)
        ensures
            r == self.netif,
    {
        self.netif
    }

    pub fn get_fib_type(&self) -> (r: FIBType)
        ensures
            r == self.fib_type,
    {
        self.fib_type
    }
}

/// Whether the routes of prefix length `k` hold one that covers `addr`.
pub open spec fn ipv6_covers(slots: Seq<Map<u128, ForwardInformationBaseIpv6>>, addr: u128, k: nat) -> bool {
    slots[k as int].contains_key(addr & ipv6_netmask(k as u32))
}

/// The route of prefix length `k` that covers `addr`.
pub open spec fn ipv6_route(slots: Seq<Map<u128, ForwardInformationBaseIpv6>>, addr: u128, k: nat) -> ForwardInformationBaseIpv6 {
    slots[k as int][addr & ipv6_netmask(k as u32)]
}

/// The longest prefix length, from `start` downwards, at which a route
/// covers `addr`.
pub open spec fn ipv6_match_length(slots: Seq<Map<u128, ForwardInformationBaseIpv6>>, addr: u128, start: nat) -> Option<nat>
    decreases start,
{
    if ipv6_covers(slots, addr, start) {
        Some(start)
    } else if start == 0 {
        None
    } else {
        ipv6_match_length(slots, addr, (start - 1) as nat)
    }
}

/// The route that a lookup of `addr` gives when it starts at prefix length
/// `start`: the one of the longest covering prefix.
pub open spec fn ipv6_longest_match(slots: Seq<Map<u128, ForwardInformationBaseIpv6>>, addr: u128, start: nat) -> Option<
    ForwardInformationBaseIpv6,
> {
    match ipv6_match_length(slots, addr, start) {
        Some(k) => Some(ipv6_route(slots, addr, k)),
        None => None,
    }
}

/// What `ipv6_match_length` finds is the greatest covering length that is
/// not above `start`; it finds nothing only where no length covers.
pub proof fn lemma_ipv6_match_length(slots: Seq<Map<u128, ForwardInformationBaseIpv6>>, addr: u128, start: nat)
    ensures
        match ipv6_match_length(slots, addr, start) {
            Some(k) => {
                &&& k <= start
                &&& ipv6_covers(slots, addr, k)
                &&& forall|q: nat| k < q <= start ==> !ipv6_covers(slots, addr, q)
            },
            None => forall|q: nat| q <= start ==> !ipv6_covers(slots, addr, q),
        },
    decreases start,
{
    if !ipv6_covers(slots, addr, start) && start > 0 {
        lemma_ipv6_match_length(slots, addr, (start - 1) as nat);
    }
}

/// Longest match: where a shorter and a longer prefix both cover `addr`,
/// a lookup that starts at or above the longer never answers with the shorter
/// one. It answers with the route of the greatest covering length, which is
/// the route of `longer` where no prefix above it covers the address.
pub proof fn law_ipv6_longest_match(slots: Seq<Map<u128, ForwardInformationBaseIpv6>>, addr: u128, start: nat, shorter: nat, longer: nat)
    requires
        shorter < longer <= start,
        ipv6_covers(slots, addr, shorter),
        ipv6_covers(slots, addr, longer),
    ensures
        ipv6_match_length(slots, addr, start) matches Some(k) && longer <= k <= start && ipv6_longest_match(
            slots,
            addr,
            start,
        ) == Some(ipv6_route(slots, addr, k)),
        (forall|q: nat| longer < q <= start ==> !ipv6_covers(slots, addr, q)) ==> ipv6_longest_match(slots, addr, start)
            == Some(ipv6_route(slots, addr, longer)),
{
    lemma_ipv6_match_length(slots, addr, start);
}

/// The routes of IPv6, one map for each prefix length from 0 to 128. The map
/// of length `k` is keyed by the address with all but its first `k` bits
/// cleared.
pub struct Ipv6FibIndex {
    slots: Vec<BTreeMap<u128, ForwardInformationBaseIpv6>>,
}

impl Ipv6FibIndex {
    /// The maps by prefix length, each from the masked address, as an
    /// integer, to the route.
    pub closed spec fn view(&self) -> Seq<Map<u128, ForwardInformationBaseIpv6>> {
        Seq::new(self.slots@.len(), |k: int| self.slots@[k]@)
    }

    /// There is one map for each prefix length, and every key is masked to
    /// the length of its map.
    pub open spec fn wf(&self) -> bool {
        &&& self@.len() == 129
        &&& forall|k: int, key: u128|
            0 <= k < 129 && #[trigger] self@[k].contains_key(key) ==> key & ipv6_netmask(k as u32) == key
    }

    pub fn new() -> (r: Ipv6FibIndex)
        ensures
            r.wf(),
            forall|k: int| 0 <= k < 129 ==> r@[k] == Map::<u128, ForwardInformationBaseIpv6>::empty(),
    {
        let mut slots: Vec<BTreeMap<u128, ForwardInformationBaseIpv6>> = Vec::new();
        let mut k: usize = 0;
        while k < 129
            invariant
                k <= 129,
                slots@.len() == k,
                forall|j: int| 0 <= j < k ==> (#[trigger] slots@[j])@ == Map::<u128, ForwardInformationBaseIpv6>::empty(),
            decreases 129 - k,
        {
            slots.push(BTreeMap::new());
            k += 1;
        }
        Ipv6FibIndex { slots }
    }
}

/// Stores a route to the network of `ip_address` with `prefix` leading
/// bits.
pub fn register_ipv6_fib(
    index: &mut Ipv6FibIndex,
    ip_address: Ipv6Address,
    prefix: u32,
    nexthop_macaddress: MacAddress,
    nexthop_address: Ipv6Address,
    netif: usize,
    fib_type: FIBType,
)
    requires
        old(index).wf(),
        prefix <= 128,
    ensures
        final(index).wf(),
        final(index)@ == old(index)@.update(
            prefix as int,
            old(index)@[prefix as int].insert(
                ip_address.prim() & ipv6_netmask(prefix),
                ForwardInformationBaseIpv6 { nexthop_macaddress, nexthop_address, netif, fib_type },
            ),
        ),
{
    let key: u128 = ip_address.masked(prefix).get_prim();
    let entry = ForwardInformationBaseIpv6::new(nexthop_macaddress, nexthop_address, netif, fib_type);
    index.slots[prefix as usize].insert(key, entry);
    proof {
        lemma_ipv6_mask(ip_address.prim(), prefix);
        assert(index@ =~= old(index)@.update(prefix as int, old(index)@[prefix as int].insert(key, entry)));
    }
}

/// Looks `ip_address` up, starting at the prefix length `prefix` and going
/// down to 0: the first hit is the answer.
pub fn find_ipv6_fib<'a>(index: &'a Ipv6FibIndex, ip_address: &Ipv6Address, prefix: u32) -> (r: Option<
    &'a ForwardInformationBaseIpv6,
>)
    requires
        index.wf(),
        prefix <= 128,
    ensures
        match r {
            Some(fib) => ipv6_longest_match(index@, ip_address.prim(), prefix as nat) == Some(*fib),
            None => ipv6_longest_match(index@, ip_address.prim(), prefix as nat) is None,
        },
{
    let mut fib_index: usize = prefix as usize;
    loop
        invariant
            index.wf(),
            fib_index <= 128,
            ipv6_match_length(index@, ip_address.prim(), prefix as nat) == ipv6_match_length(
                index@,
                ip_address.prim(),
                fib_index as nat,
            ),
        decreases fib_index,
    {
        let key: u128 = ip_address.masked(fib_index as u32).get_prim();
        if let Some(fib) = index.slots[fib_index].get(&key) {
            return Some(fib);
        }
        if fib_index == 0 {
            return None;
        }
        fib_index = fib_index - 1;
    }
}

/// The five forwarding tables.
pub struct ForwardingTables {
    pub mac: MacAddressTable,
    pub ipv4_adjacent: Ipv4AdjacentTable,
    pub ipv6_adjacent: Ipv6AdjacentTable,
    pub ipv4_fib: Ipv4FibIndex,
    pub ipv6_fib: Ipv6FibIndex,
}

/// The five forwarding tables as plain values.
pub struct ForwardingTablesView {
    pub mac: Map<u64, AdjacentInformation>,
    pub ipv4_adjacent: Map<u32, AdjacentInformation>,
    pub ipv6_adjacent: Map<u128, AdjacentInformation>,
    pub ipv4_fib: Seq<Map<u32, ForwardInformationBaseIpv4>>,
    pub ipv6_fib: Seq<Map<u128, ForwardInformationBaseIpv6>>,
}

impl ForwardingTables {
    pub open spec fn view(&self) -> ForwardingTablesView {
        ForwardingTablesView {
            mac: self.mac@,
            ipv4_adjacent: self.ipv4_adjacent@,
            ipv6_adjacent: self.ipv6_adjacent@,
            ipv4_fib: self.ipv4_fib@,
            ipv6_fib: self.ipv6_fib@,
        }
    }

    pub open spec fn wf(&self) -> bool {
        self.ipv4_fib.wf() && self.ipv6_fib.wf()
    }

    /// Five empty tables.
    pub fn new() -> (r: ForwardingTables)
        ensures
            r.wf(),
            r@.mac == Map::<u64, AdjacentInformation>::empty(),
            r@.ipv4_adjacent == Map::<u32, AdjacentInformation>::empty(),
            r@.ipv6_adjacent == Map::<u128, AdjacentInformation>::empty(),
            forall|k: int| 0 <= k < 33 ==> r@.ipv4_fib[k] == Map::<u32, ForwardInformationBaseIpv4>::empty(),
            forall|k: int| 0 <= k < 129 ==> r@.ipv6_fib[k] == Map::<u128, ForwardInformationBaseIpv6>::empty(),
    {
        ForwardingTables {
            mac: MacAddressTable::new(),
            ipv4_adjacent: Ipv4AdjacentTable::new(),
            ipv6_adjacent: Ipv6AdjacentTable::new(),
            ipv4_fib: Ipv4FibIndex::new(),
            ipv6_fib: Ipv6FibIndex::new(),
        }
    }
}

proof fn lemma_netmask_injective(p: u32, q: u32)
    by (bit_vector)
    requires
        p <= 32,
        q <= 32,
        p != q,
    ensures
        (if p == 0 { 0u32 } else { 0xffff_ffffu32 << ((32 - p) as u32) }) != (if q == 0 {
            0u32
        } else {
            0xffff_ffffu32 << ((32 - q) as u32)
        }),
{
}

/// The prefix length of the network mask of a prefix length is that
/// length.
pub proof fn lemma_ipv4_netmask_prefixlen(p: u32)
    requires
        p <= 32,
    ensures
        ipv4_mask_prefixlen(ipv4_netmask(p)) == p,
        is_ipv4_netmask(ipv4_netmask(p)),
{
    lemma_ipv4_prefixlen_from_netmask(p, 32);
}

proof fn lemma_ipv4_prefixlen_from_netmask(p: u32, q: nat)
    requires
        p <= q <= 32,
    ensures
        ipv4_prefixlen_from(ipv4_netmask(p), q) == p,
    decreases q,
{
    if q > p {
        lemma_netmask_injective(p, q as u32);
        lemma_ipv4_prefixlen_from_netmask(p, (q - 1) as nat);
    }
}

/// The octets of the link-local address of an interface with the
/// link-layer address `mac`.
pub open spec fn link_local_octets(mac: Seq<u8>) -> Seq<u8> {
    seq![
        0xfeu8, 0x80u8, 0x00u8, 0x00u8, 0x00u8, 0x00u8, 0x00u8, 0x00u8, mac[0], mac[1], mac[2], 0xffu8, 0xfeu8, mac[3],
        mac[4], mac[5],
    ]
}

/// The octets of the solicited-node multicast address of an interface
/// with the link-layer address `mac`.
pub open spec fn solicited_node_octets(mac: Seq<u8>) -> Seq<u8> {
    seq![
        0xffu8, 0x02u8, 0x00u8, 0x00u8, 0x00u8, 0x00u8, 0x00u8, 0x00u8, 0x00u8, 0x00u8, 0x00u8, 0x01u8, 0xffu8, mac[3],
        mac[4], mac[5],
    ]
}

/// The octets of the link-layer address of the solicited-node multicast
/// address.
pub open spec fn solicited_node_mac_octets(mac: Seq<u8>) -> Seq<u8> {
    seq![0x33u8, 0x33u8, 0xffu8, mac[3], mac[4], mac[5]]
}

/// The octets of the multicast address of all nodes.
pub open spec fn all_nodes_octets() -> Seq<u8> {
    seq![
        0xffu8, 0x02u8, 0x00u8, 0x00u8, 0x00u8, 0x00u8, 0x00u8, 0x00u8, 0x00u8, 0x00u8, 0x00u8, 0x00u8, 0x00u8, 0x00u8,
        0x00u8, 0x01u8,
    ]
}

/// The octets of the link-layer address of the multicast address of all
/// nodes.
pub open spec fn all_nodes_mac_octets() -> Seq<u8> {
    seq![0x33u8, 0x33u8, 0x00u8, 0x00u8, 0x00u8, 0x01u8]
}

/// The tables after `mac` was registered as an address of this host on the
/// interface `netif`.
pub open spec fn with_local_mac(t: ForwardingTablesView, mac: MacAddress, netif: usize) -> ForwardingTablesView {
    ForwardingTablesView {
        mac: adjacency_after(
            t.mac,
            mac.prim(),
            AdjacentInformation { mac_address: mac, netif, is_local: true, expire_time: None },
        ),
        ..t
    }
}

/// The tables after `ip` was registered as an IPv6 address of this host on
/// the interface `netif`, with the link-layer address `mac`: a neighbour
/// entry and a host route that leads to this host.
pub open spec fn with_local_ipv6(t: ForwardingTablesView, ip: Ipv6Address, mac: MacAddress, netif: usize) -> ForwardingTablesView {
    ForwardingTablesView {
        ipv6_adjacent: adjacency_after(
            t.ipv6_adjacent,
            ip.prim(),
            AdjacentInformation { mac_address: mac, netif, is_local: true, expire_time: None },
        ),
        ipv6_fib: t.ipv6_fib.update(
            128,
            t.ipv6_fib[128].insert(
                ip.prim(),
                ForwardInformationBaseIpv6 { nexthop_macaddress: mac, nexthop_address: ip, netif, fib_type: FIBType::Local },
            ),
        ),
        ..t
    }
}

/// The tables after `ip` was registered as the IPv4 address of the
/// interface `netif` in a network of `prefix` leading bits: a neighbour
/// entry, a host route that leads to this host, and a route to the
/// network, whose hosts are adjacent.
pub open spec fn with_local_ipv4(
    t: ForwardingTablesView,
    ip: Ipv4Address,
    prefix: u32,
    mac: MacAddress,
    netif: usize,
) -> ForwardingTablesView {
    let host = t.ipv4_fib.update(
        32,
        t.ipv4_fib[32].insert(
            ip.prim(),
            ForwardInformationBaseIpv4 { nexthop_macaddress: mac, nexthop_address: ip, netif, fib_type: FIBType::Local },
        ),
    );
    ForwardingTablesView {
        ipv4_adjacent: adjacency_after(
            t.ipv4_adjacent,
            ip.prim(),
            AdjacentInformation { mac_address: mac, netif, is_local: true, expire_time: None },
        ),
        ipv4_fib: host.update(
            prefix as int,
            host[prefix as int].insert(
                ip.prim() & ipv4_netmask(prefix),
                ForwardInformationBaseIpv4 {
                    nexthop_macaddress: mac,
                    nexthop_address: ip,
                    netif,
                    fib_type: FIBType::Adjacent,
                },
            ),
        ),
        ..t
    }
}

/// The tables after the interface `netif` was configured: its link-layer
/// address and its IPv4 address; its link-local IPv6 address; its
/// solicited-node multicast address and the multicast address of all
/// nodes, each with its link-layer address.
pub open spec fn interface_configured(
    t: ForwardingTablesView,
    netif: usize,
    mac: MacAddress,
    ip: Ipv4Address,
    prefix: u32,
) -> ForwardingTablesView {
    let o = mac.octets();
    let t1 = with_local_ipv4(with_local_mac(t, mac, netif), ip, prefix, mac, netif);
    let t2 = with_local_ipv6(t1, Ipv6Address::from_octets(link_local_octets(o)), mac, netif);
    let snm = MacAddress::from_octets(solicited_node_mac_octets(o));
    let t3 = with_local_ipv6(
        with_local_mac(t2, snm, netif),
        Ipv6Address::from_octets(solicited_node_octets(o)),
        snm,
        netif,
    );
    let anm = MacAddress::from_octets(all_nodes_mac_octets());
    with_local_ipv6(with_local_mac(t3, anm, netif), Ipv6Address::from_octets(all_nodes_octets()), anm, netif)
}

/// Registers `ip` as an IPv6 address of this host on the interface
/// `netif`.
pub fn register_local_ipv6(tables: &mut ForwardingTables, ip: Ipv6Address, mac: MacAddress, netif: usize)
    requires
        old(tables).wf(),
    ensures
        final(tables).wf(),
        final(tables)@ == with_local_ipv6(old(tables)@, ip, mac, netif),
{
    proof {
        lemma_ipv6_mask(ip.prim(), 128);
    }
    register_ipv6_adjacent(&mut tables.ipv6_adjacent, ip, mac, netif, true, None);
    register_ipv6_fib(&mut tables.ipv6_fib, ip, 128, mac, ip, netif, FIBType::Local);
}

/// Enters the addresses of an interface in the tables: see
/// `interface_configured`.
pub fn configure_interface(
    tables: &mut ForwardingTables,
    netif: usize,
    macaddr: MacAddress,
    ipv4addr: Ipv4Address,
    prefix: u32,
)
    requires
        old(tables).wf(),
        prefix <= 32,
    ensures
        final(tables).wf(),
        final(tables)@ == interface_configured(old(tables)@, netif, macaddr, ipv4addr, prefix),
{
    register_macaddress(&mut tables.mac, macaddr, netif, true, None);
    register_ipv4_adjacent(&mut tables.ipv4_adjacent, ipv4addr, macaddr, netif, true, None);
    proof {
        lemma_ipv4_host_mask();
        lemma_ipv4_mask(ipv4addr.prim(), 32);
        lemma_ipv4_netmask_prefixlen(prefix);
        lemma_ipv4_mask(ipv4addr.prim(), prefix);
    }
    register_ipv4_fib(&mut tables.ipv4_fib, ipv4addr, 0xffff_ffff, macaddr, ipv4addr, netif, FIBType::Local);
    let mask: u32 = if prefix == 0 {
        0
    } else {
        0xffff_ffffu32 << (32 - prefix)
    };
    register_ipv4_fib(&mut tables.ipv4_fib, ipv4addr.masked(prefix), mask, macaddr, ipv4addr, netif, FIBType::Adjacent);
    assert(tables@ == with_local_ipv4(with_local_mac(old(tables)@, macaddr, netif), ipv4addr, prefix, macaddr, netif));
    let m = macaddr.get_array();
    let lla: [u8; 16] = [
        0xfe, 0x80, 0x00, 0x00, 0x00, 0x00, 0x00, 0x00, m[0], m[1], m[2], 0xff, 0xfe, m[3], m[4], m[5],
    ];
    assert(lla@ =~= link_local_octets(macaddr.octets()));
    register_local_ipv6(tables, Ipv6Address::from_array(lla), macaddr, netif);
    let snmcast: [u8; 16] = [
        0xff, 0x02, 0x00, 0x00, 0x00, 0x00, 0x00, 0x00, 0x00, 0x00, 0x00, 0x01, 0xff, m[3], m[4], m[5],
    ];
    assert(snmcast@ =~= solicited_node_octets(macaddr.octets()));
    let snmcast_mac: [u8; 6] = [0x33, 0x33, 0xff, m[3], m[4], m[5]];
    assert(snmcast_mac@ =~= solicited_node_mac_octets(macaddr.octets()));
    let snm = MacAddress::new(snmcast_mac);
    register_macaddress(&mut tables.mac, snm, netif, true, None);
    register_local_ipv6(tables, Ipv6Address::from_array(snmcast), snm, netif);
    let allnodes: [u8; 16] = [
        0xff, 0x02, 0x00, 0x00, 0x00, 0x00, 0x00, 0x00, 0x00, 0x00, 0x00, 0x00, 0x00, 0x00, 0x00, 0x01,
    ];
    assert(allnodes@ =~= all_nodes_octets());
    let allnodes_mac: [u8; 6] = [0x33, 0x33, 0x00, 0x00, 0x00, 0x01];
    assert(allnodes_mac@ =~= all_nodes_mac_octets());
    let anm = MacAddress::new(allnodes_mac);
    register_macaddress(&mut tables.mac, anm, netif, true, None);
    register_local_ipv6(tables, Ipv6Address::from_array(allnodes), anm, netif);
}

} // verus!
