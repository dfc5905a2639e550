//! IPv6 addresses and the IPv6 ingress stages.

use vstd::prelude::*;
use vstd::slice::slice_subrange;
use crate::devices::netif::Netif;
use crate::net::{
    DataFromNetif, FrameView, ProcessingNode, RequestView, TransmitRequest, append, checksum, checksum_total,
    checksum_valid, frames_of, interface_macs, internet_checksum, law_checksum_validates, requests_of, reversed,
    sum_words, with_checksum,
};
use crate::net::ethernet::{MacAddress, ether_header, generate_ether_header, lemma_mac_from_octets, mac_at, read_mac};
use crate::net::fib::{
    AdjacentInformation, FIBType, ForwardInformationBaseIpv6, ForwardingTables, ForwardingTablesView, adjacency_after,
    find_ipv6_fib, ipv6_longest_match, register_ipv6_adjacent, register_ipv6_fib,
};

verus! {

/// The 128-bit value whose big-endian octets are `a`.
pub open spec fn ipv6_prim_of(a: Seq<u8>) -> u128 {
    ((a[0] as u128) << 120) | ((a[1] as u128) << 112) | ((a[2] as u128) << 104) | ((a[3] as u128) << 96) | ((
    a[4] as u128) << 88) | ((a[5] as u128) << 80) | ((a[6] as u128) << 72) | ((a[7] as u128) << 64) | ((a[8] as u128)
        << 56) | ((a[9] as u128) << 48) | ((a[10] as u128) << 40) | ((a[11] as u128) << 32) | ((a[12] as u128) << 24)
        | ((a[13] as u128) << 16) | ((a[14] as u128) << 8) | (a[15] as u128)
}

/// The sixteen octets of a 128-bit value, most significant first.
pub open spec fn ipv6_octets_of(p: u128) -> Seq<u8> {
    seq![
        (p >> 120) as u8,
        ((p >> 112) & 0xff) as u8,
        ((p >> 104) & 0xff) as u8,
        ((p >> 96) & 0xff) as u8,
        ((p >> 88) & 0xff) as u8,
        ((p >> 80) & 0xff) as u8,
        ((p >> 72) & 0xff) as u8,
        ((p >> 64) & 0xff) as u8,
        ((p >> 56) & 0xff) as u8,
        ((p >> 48) & 0xff) as u8,
        ((p >> 40) & 0xff) as u8,
        ((p >> 32) & 0xff) as u8,
        ((p >> 24) & 0xff) as u8,
        ((p >> 16) & 0xff) as u8,
        ((p >> 8) & 0xff) as u8,
        (p & 0xff) as u8,
    ]
}

/// The network mask of a prefix length: the top `prefix_length` bits set.
pub open spec fn ipv6_netmask(prefix_length: u32) -> u128 {
    if prefix_length == 0 {
        0u128
    } else {
        0xffff_ffff_ffff_ffff_ffff_ffff_ffff_ffffu128 << ((128 - prefix_length) as u128)
    }
}

/// An IPv6 address, kept as one integer in host order.
#[derive(Debug, Copy, Clone, PartialEq, Eq, Ord, Hash, Structural)]
pub struct Ipv6Address {
    addr_prim: u128,
}

pub proof fn lemma_ipv6_pack_unpack(
    a0: u8, a1: u8, a2: u8, a3: u8, a4: u8, a5: u8, a6: u8, a7: u8,
    a8: u8, a9: u8, a10: u8, a11: u8, a12: u8, a13: u8, a14: u8, a15: u8,
)
    by (bit_vector)
    ensures
        ({
            let p: u128 = ((a0 as u128) << 120) | ((a1 as u128) << 112) | ((a2 as u128) << 104) | ((a3 as u128)
                << 96) | ((a4 as u128) << 88) | ((a5 as u128) << 80) | ((a6 as u128) << 72) | ((a7 as u128) << 64) | ((
            a8 as u128) << 56) | ((a9 as u128) << 48) | ((a10 as u128) << 40) | ((a11 as u128) << 32) | ((a12 as u128)
                << 24) | ((a13 as u128) << 16) | ((a14 as u128) << 8) | (a15 as u128);
            &&& (p >> 120) as u8 == a0
            &&& ((p >> 112) & 0xff) as u8 == a1
            &&& ((p >> 104) & 0xff) as u8 == a2
            &&& ((p >> 96) & 0xff) as u8 == a3
            &&& ((p >> 88) & 0xff) as u8 == a4
            &&& ((p >> 80) & 0xff) as u8 == a5
            &&& ((p >> 72) & 0xff) as u8 == a6
            &&& ((p >> 64) & 0xff) as u8 == a7
            &&& ((p >> 56) & 0xff) as u8 == a8
            &&& ((p >> 48) & 0xff) as u8 == a9
            &&& ((p >> 40) & 0xff) as u8 == a10
            &&& ((p >> 32) & 0xff) as u8 == a11
            &&& ((p >> 24) & 0xff) as u8 == a12
            &&& ((p >> 16) & 0xff) as u8 == a13
            &&& ((p >> 8) & 0xff) as u8 == a14
            &&& (p & 0xff) as u8 == a15
        }),
{
}

pub proof fn lemma_ipv6_mask(x: u128, p: u32)
    by (bit_vector)
    requires
        p <= 128,
    ensures
        ({
            let m: u128 = if p == 0 {
                0u128
            } else {
                0xffff_ffff_ffff_ffff_ffff_ffff_ffff_ffffu128 << ((128 - p) as u128)
            };
            &&& (x & m) & m == x & m
            &&& (p == 128 ==> x & m == x)
            &&& (p == 0 ==> x & m == 0)
            &&& (p > 0 ==> (x & m) & (((1u128 << ((128 - p) as u128)) - 1) as u128) == 0)
        }),
{
}

impl Ipv6Address {
    /// The address as an integer.
    pub closed spec fn prim(self) -> u128 {
        self.addr_prim
    }

    /// The address of sixteen octets.
    pub closed spec fn from_octets(a: Seq<u8>) -> Ipv6Address {
        Ipv6Address { addr_prim: ipv6_prim_of(a) }
    }

    /// The sixteen octets of the address, most significant first.
    pub open spec fn octets(self) -> Seq<u8> {
        ipv6_octets_of(self.prim())
    }

    /// The address of sixteen octets, most significant first.
    pub fn from_array(arr: [u8; 16]) -> (r: Ipv6Address)
        ensures
            r == Ipv6Address::from_octets(arr@),
            r.prim() == ipv6_prim_of(arr@),
            r.octets() == arr@,
    {
        let prim: u128 = ((arr[0] as u128) << 120) | ((arr[1] as u128) << 112) | ((arr[2] as u128) << 104) | ((
        arr[3] as u128) << 96) | ((arr[4] as u128) << 88) | ((arr[5] as u128) << 80) | ((arr[6] as u128) << 72) | ((
        arr[7] as u128) << 64) | ((arr[8] as u128) << 56) | ((arr[9] as u128) << 48) | ((arr[10] as u128) << 40) | ((
        arr[11] as u128) << 32) | ((arr[12] as u128) << 24) | ((arr[13] as u128) << 16) | ((arr[14] as u128) << 8) | (
        arr[15] as u128);
        let r = Ipv6Address { addr_prim: prim };
        proof {
            lemma_ipv6_round_trip(arr@);
        }
        r
    }

    /// The address with all but its first `prefix_length` bits cleared.
    pub fn masked(&self, prefix_length: u32) -> (r: Ipv6Address)
        requires
            prefix_length <= 128,
        ensures
            r.prim() == self.prim() & ipv6_netmask(prefix_length),
    {
        let mask: u128 = if prefix_length == 0 {
            0
        } else {
            0xffff_ffff_ffff_ffff_ffff_ffff_ffff_ffffu128 << (128 - prefix_length)
        };
        Ipv6Address { addr_prim: self.addr_prim & mask }
    }

    /// The sixteen octets of the address, most significant first.
    pub fn get_array(&self) -> (r: [u8; 16])
        ensures
            r@ == self.octets(),
    {
        let p = self.addr_prim;
        let r: [u8; 16] = [
            (p >> 120) as u8,
            ((p >> 112) & 0xff) as u8,
            ((p >> 104) & 0xff) as u8,
            ((p >> 96) & 0xff) as u8,
            ((p >> 88) & 0xff) as u8,
            ((p >> 80) & 0xff) as u8,
            ((p >> 72) & 0xff) as u8,
            ((p >> 64) & 0xff) as u8,
            ((p >> 56) & 0xff) as u8,
            ((p >> 48) & 0xff) as u8,
            ((p >> 40) & 0xff) as u8,
            ((p >> 32) & 0xff) as u8,
            ((p >> 24) & 0xff) as u8,
            ((p >> 16) & 0xff) as u8,
            ((p >> 8) & 0xff) as u8,
            (p & 0xff) as u8,
        ];
        assert(r@ =~= self.octets());
        r
    }

    /// The address as an integer.
    pub fn get_prim(&self) -> (r: u128)
        ensures
            r == self.prim(),
    {
        self.addr_prim
    }
}

/// The octets of the value packed from sixteen octets are those octets.
pub proof fn lemma_ipv6_round_trip(a: Seq<u8>)
    requires
        a.len() == 16,
    ensures
        ipv6_octets_of(ipv6_prim_of(a)) == a,
{
    lemma_ipv6_pack_unpack(
        a[0], a[1], a[2], a[3], a[4], a[5], a[6], a[7],
        a[8], a[9], a[10], a[11], a[12], a[13], a[14], a[15],
    );
    assert(ipv6_octets_of(ipv6_prim_of(a)) =~= a);
}

/// The address of sixteen octets has those octets.
pub proof fn lemma_ipv6_from_octets(a: Seq<u8>)
    requires
        a.len() == 16,
    ensures
        Ipv6Address::from_octets(a).prim() == ipv6_prim_of(a),
        Ipv6Address::from_octets(a).octets() == a,
{
    lemma_ipv6_round_trip(a);
}

/// An address is its integer: two addresses with the same integer are the
/// same address.
pub proof fn law_ipv6_prim_decides(x: Ipv6Address, y: Ipv6Address)
    ensures
        (x.prim() == y.prim()) == (x == y),
{
}

/// Packing sixteen octets and unpacking the result gives the octets back.
pub proof fn law_ipv6_array_round_trip(a: Seq<u8>, x: Ipv6Address)
    requires
        a.len() == 16,
        x.prim() == ipv6_prim_of(a),
    ensures
        x.octets() == a,
{
    lemma_ipv6_round_trip(a);
}

/// Masking is idempotent, and a masked address has no bit set below the
/// prefix: of its 128 bits the lowest `128 - p` are zero.
pub proof fn law_ipv6_masking(x: Ipv6Address, m: Ipv6Address, mm: Ipv6Address, p: u32)
    requires
        p <= 128,
        m.prim() == x.prim() & ipv6_netmask(p),
        mm.prim() == m.prim() & ipv6_netmask(p),
    ensures
        mm == m,
        p > 0 ==> m.prim() & (((1u128 << ((128 - p) as u128)) - 1) as u128) == 0,
        p == 0 ==> m.prim() == 0,
        p == 128 ==> m == x,
{
    lemma_ipv6_mask(x.prim(), p);
}

/// The address in the sixteen bytes of `s` from `offset` on.
pub open spec fn ipv6_at(s: Seq<u8>, offset: int) -> Ipv6Address {
    Ipv6Address::from_octets(s.subrange(offset, offset + 16))
}

/// Reads the address in the sixteen bytes of `s` from `offset` on.
pub fn read_ipv6(s: &[u8], offset: usize) -> (r: Ipv6Address)
    requires
        offset + 16 <= s@.len(),
    ensures
        r == ipv6_at(s@, offset as int),
        r.octets() == s@.subrange(offset as int, offset + 16),
{
    let octets: [u8; 16] = [
        s[offset],
        s[offset + 1],
        s[offset + 2],
        s[offset + 3],
        s[offset + 4],
        s[offset + 5],
        s[offset + 6],
        s[offset + 7],
        s[offset + 8],
        s[offset + 9],
        s[offset + 10],
        s[offset + 11],
        s[offset + 12],
        s[offset + 13],
        s[offset + 14],
        s[offset + 15],
    ];
    assert(octets@ =~= s@.subrange(offset as int, offset + 16));
    Ipv6Address::from_array(octets)
}

/// An IPv6 header: version 6, no traffic class or flow label, the payload
/// length `len`, and a hop limit of 128.
pub open spec fn ipv6_header(len: Seq<u8>, nexthdr: u8, src: Ipv6Address, dest: Ipv6Address) -> Seq<u8> {
    seq![0x60u8, 0x00u8, 0x00u8, 0x00u8, len[0], len[1], nexthdr, 0x80u8] + src.octets() + dest.octets()
}

/// Writes an IPv6 header to the first forty bytes of `buffer`.
pub fn generate_ipv6_header(buffer: &mut [u8], len: [u8; 2], nexthdr: u8, src_ip: Ipv6Address, dest_ip: Ipv6Address)
    requires
        old(buffer)@.len() >= 40,
    ensures
        final(buffer)@ == ipv6_header(len@, nexthdr, src_ip, dest_ip) + old(buffer)@.subrange(
            40,
            old(buffer)@.len() as int,
        ),
{
    let src = src_ip.get_array();
    let dest = dest_ip.get_array();
    buffer[0] = 0x60;
    buffer[1] = 0x00;
    buffer[2] = 0x00;
    buffer[3] = 0x00;
    buffer[4] = len[0];
    buffer[5] = len[1];
    buffer[6] = nexthdr;
    buffer[7] = 0x80;
    let mut i: usize = 0;
    while i < 16
        invariant
            i <= 16,
            buffer@.len() == old(buffer)@.len(),
            buffer@.len() >= 40,
            buffer@.subrange(0, 8) == seq![0x60u8, 0x00u8, 0x00u8, 0x00u8, len[0], len[1], nexthdr, 0x80u8],
            forall|j: int| 0 <= j < i ==> buffer@[8 + j] == src@[j] && buffer@[24 + j] == dest@[j],
            forall|j: int| 40 <= j < buffer@.len() ==> buffer@[j] == old(buffer)@[j],
        decreases 16 - i,
    {
        let ghost prev = buffer@;
        buffer[8 + i] = src[i];
        buffer[24 + i] = dest[i];
        i += 1;
        assert(buffer@.subrange(0, 8) =~= prev.subrange(0, 8));
    }
    proof {
        let head = seq![0x60u8, 0x00u8, 0x00u8, 0x00u8, len[0], len[1], nexthdr, 0x80u8];
        assert forall|j: int| 0 <= j < 8 implies buffer@[j] == head[j] by {
            assert(buffer@.subrange(0, 8)[j] == buffer@[j]);
        }
        assert(buffer@ =~= ipv6_header(len@, nexthdr, src_ip, dest_ip) + old(buffer)@.subrange(
            40,
            old(buffer)@.len() as int,
        ));
    }
}

/// Whether the IPv6 ingress stage passes a frame on to the local stage:
/// the packet is of version 6, the longest route that covers its
/// destination leads to this host, and its next header is 58.
pub open spec fn ipv6_in_passes(t: ForwardingTablesView, s: Seq<u8>) -> bool {
    &&& s.len() >= 54
    &&& s[14] & 0xf0 == 0x60
    &&& ipv6_longest_match(t.ipv6_fib, ipv6_at(s, 38).prim(), 128) matches Some(fib) && fib.fib_type == FIBType::Local
    &&& s[20] == 58
}

/// The frames of `frames` that the IPv6 ingress stage passes on to the
/// local stage, in their order.
pub open spec fn ipv6_in_bin(t: ForwardingTablesView, frames: Seq<FrameView>) -> Seq<FrameView>
    decreases frames.len(),
{
    if frames.len() == 0 {
        Seq::<FrameView>::empty()
    } else {
        let before = ipv6_in_bin(t, frames.drop_last());
        if ipv6_in_passes(t, frames.last().bytes) {
            before.push(frames.last())
        } else {
            before
        }
    }
}

/// The payload length that the IPv6 header of the frame `s` states.
pub open spec fn ipv6_payload_len(s: Seq<u8>) -> int {
    s[18] as int * 256 + s[19] as int
}

/// Whether the frame `s` holds an echo request that can be answered: the
/// payload holds at least the eight bytes before the data, all of it is in
/// the frame, and its type is 0x80.
pub open spec fn echo6_request_ok(s: Seq<u8>) -> bool {
    &&& s.len() >= 62
    &&& ipv6_payload_len(s) >= 8
    &&& s.len() >= 54 + ipv6_payload_len(s)
    &&& s[54] == 0x80
}

/// The sum that the pseudo-header adds to the checksum of an upper-layer
/// packet: the two addresses, the length of the packet and the next header.
pub open spec fn pseudo_header_sum(src: Seq<u8>, dest: Seq<u8>, len: int, nexthdr: u8) -> nat {
    (checksum_total(src) + checksum_total(dest) + len + nexthdr) as nat
}

/// The echo reply to the request in the frame `s`, before its checksum is
/// filled in: from `our_mac` to the sender, from the address that the
/// request was sent to, of type 0x81, with the code, the identifier, the
/// sequence number and the data of the request.
pub open spec fn echo6_reply_unsummed(our_mac: MacAddress, s: Seq<u8>) -> Seq<u8> {
    let n = ipv6_payload_len(s);
    ether_header(our_mac, mac_at(s, 6), seq![0x86u8, 0xddu8]) + ipv6_header(
        s.subrange(18, 20),
        58,
        ipv6_at(s, 38),
        ipv6_at(s, 22),
    ) + seq![0x81u8, s[55], 0x00u8, 0x00u8] + s.subrange(58, 54 + n)
}

/// The echo reply to the request in the frame `s`, with its checksum over
/// the pseudo-header and the message.
pub open spec fn echo6_reply_frame(our_mac: MacAddress, s: Seq<u8>) -> Seq<u8> {
    let f0 = echo6_reply_unsummed(our_mac, s);
    let n = ipv6_payload_len(s);
    with_checksum(
        f0,
        56,
        internet_checksum(
            pseudo_header_sum(f0.subrange(22, 38), f0.subrange(38, 54), n, 58),
            f0.subrange(54, 54 + n),
        ),
    )
}

/// What the local stage answers to a frame: an echo reply to an echo
/// request, sent on the interface that the request came in on.
pub open spec fn echo6_reply(macs: Seq<MacAddress>, f: FrameView) -> Option<RequestView> {
    if echo6_request_ok(f.bytes) && f.netif < macs.len() {
        Some(RequestView { netif: f.netif, bytes: echo6_reply_frame(macs[f.netif as int], f.bytes) })
    } else {
        None
    }
}

/// The replies of the local stage to `frames`, in their order.
pub open spec fn echo6_requests(macs: Seq<MacAddress>, frames: Seq<FrameView>) -> Seq<RequestView>
    decreases frames.len(),
{
    if frames.len() == 0 {
        Seq::<RequestView>::empty()
    } else {
        let before = echo6_requests(macs, frames.drop_last());
        match echo6_reply(macs, frames.last()) {
            Some(r) => before.push(r),
            None => before,
        }
    }
}

/// Whether the frame `s` holds a neighbour advertisement: the payload
/// holds at least the 24 bytes before the options, all of it is in the
/// frame, and its type is 0x88.
pub open spec fn neighbor_advert_ok(s: Seq<u8>) -> bool {
    &&& s.len() >= 78
    &&& ipv6_payload_len(s) >= 24
    &&& s.len() >= 54 + ipv6_payload_len(s)
    &&& s[54] == 0x88
}

/// The options of the neighbour advertisement in the frame `s`.
pub open spec fn neighbor_options(s: Seq<u8>) -> Seq<u8> {
    s.subrange(78, 54 + ipv6_payload_len(s))
}

/// The link-layer address in the first option of type 2 among the options
/// `opts` from `at` on. An option is its type, its length in units of
/// eight bytes, and its data; the search ends without a result at an
/// option of length 0 and at one that runs past the end.
pub open spec fn target_link_address(opts: Seq<u8>, at: nat) -> Option<Seq<u8>>
    decreases opts.len() - at,
{
    if at + 2 > opts.len() {
        None
    } else {
        let units = opts[at as int + 1] as nat;
        if units == 0 || at + units * 8 > opts.len() {
            None
        } else if opts[at as int] == 2 {
            Some(opts.subrange(at as int + 2, at as int + 8))
        } else {
            target_link_address(opts, at + units * 8)
        }
    }
}

/// The tables after the local stage saw a frame: where it holds a
/// neighbour advertisement with a link-layer address, the target has a
/// resolved host route and a neighbour entry, on the interface of the
/// frame. Nothing else teaches anything.
pub open spec fn neighbor_learn(t: ForwardingTablesView, f: FrameView) -> ForwardingTablesView {
    let s = f.bytes;
    if neighbor_advert_ok(s) && target_link_address(neighbor_options(s), 0) is Some {
        let mac = MacAddress::from_octets(target_link_address(neighbor_options(s), 0).unwrap());
        let target = ipv6_at(s, 62);
        ForwardingTablesView {
            ipv6_fib: t.ipv6_fib.update(
                128,
                t.ipv6_fib[128].insert(
                    target.prim(),
                    ForwardInformationBaseIpv6 {
                        nexthop_macaddress: mac,
                        nexthop_address: target,
                        netif: f.netif,
                        fib_type: FIBType::AdjacentResolved,
                    },
                ),
            ),
            ipv6_adjacent: adjacency_after(
                t.ipv6_adjacent,
                target.prim(),
                AdjacentInformation { mac_address: mac, netif: f.netif, is_local: false, expire_time: None },
            ),
            ..t
        }
    } else {
        t
    }
}

/// The tables after the local stage saw all of `frames`.
pub open spec fn neighbor_tables(t: ForwardingTablesView, frames: Seq<FrameView>) -> ForwardingTablesView
    decreases frames.len(),
{
    if frames.len() == 0 {
        t
    } else {
        neighbor_learn(neighbor_tables(t, frames.drop_last()), frames.last())
    }
}

/// An echo reply has the length of its request. It goes back to the
/// sender, from the host's own link-layer address and from the address that
/// the request was sent to. It carries the code, the identifier, the
/// sequence number and the data of the request, byte for byte, and its
/// message checks on top of the pseudo-header of the reply.
pub proof fn law_echo6_reply(our_mac: MacAddress, s: Seq<u8>)
    requires
        echo6_request_ok(s),
    ensures
        ({
            let r = echo6_reply_frame(our_mac, s);
            let n = ipv6_payload_len(s);
            &&& r.len() == 54 + n
            &&& r.subrange(0, 6) == s.subrange(6, 12)
            &&& r.subrange(6, 12) == our_mac.octets()
            &&& r[12] == 0x86
            &&& r[13] == 0xdd
            &&& r[14] == 0x60
            &&& r.subrange(18, 20) == s.subrange(18, 20)
            &&& r[20] == 58
            &&& r.subrange(22, 38) == s.subrange(38, 54)
            &&& r.subrange(38, 54) == s.subrange(22, 38)
            &&& r[54] == 0x81
            &&& r[55] == s[55]
            &&& r.subrange(58, 54 + n) == s.subrange(58, 54 + n)
            &&& checksum_valid(
                pseudo_header_sum(r.subrange(22, 38), r.subrange(38, 54), n, 58),
                r.subrange(54, 54 + n),
            )
        }),
{
    let f0 = echo6_reply_unsummed(our_mac, s);
    let n = ipv6_payload_len(s);
    lemma_mac_from_octets(s.subrange(6, 12));
    lemma_ipv6_from_octets(s.subrange(38, 54));
    lemma_ipv6_from_octets(s.subrange(22, 38));
    assert(f0.len() == 54 + n);
    let message0 = f0.subrange(54, 54 + n);
    let initial = pseudo_header_sum(f0.subrange(22, 38), f0.subrange(38, 54), n, 58);
    let c = internet_checksum(initial, message0);
    let r = with_checksum(f0, 56, c);
    law_checksum_validates(initial, message0, 2);
    assert(r.subrange(54, 54 + n) =~= message0.update(2, (c >> 8) as u8).update(3, (c & 0xff) as u8));
    assert(r.subrange(22, 38) =~= f0.subrange(22, 38));
    assert(r.subrange(38, 54) =~= f0.subrange(38, 54));
    assert(r.subrange(0, 6) =~= s.subrange(6, 12));
    assert(r.subrange(6, 12) =~= our_mac.octets());
    assert(r.subrange(18, 20) =~= s.subrange(18, 20));
    assert(r.subrange(22, 38) =~= s.subrange(38, 54));
    assert(r.subrange(38, 54) =~= s.subrange(22, 38));
    assert(r.subrange(58, 54 + n) =~= s.subrange(58, 54 + n));
}

/// The IPv6 ingress stage: it passes packets for this host whose next
/// header is 58 on to the local stage and drops what else comes in.
pub struct Ipv6In;

impl Ipv6In {
    pub fn new() -> (r: Ipv6In)
        ensures
            r == Ipv6In,
    {
        Ipv6In {  }
    }

    /// Whether a frame goes on to the local stage.
    pub fn passes(&self, tables: &ForwardingTables, frame: &DataFromNetif) -> (r: bool)
        requires
            tables.wf(),
            frame.wf(),
        ensures
            r == ipv6_in_passes(tables@, frame@),
    {
        let slice = frame.get_buffer().slice();
        if slice.len() < 54 {
            return false;
        }
        if (slice[14] & 0xf0) != 0x60 {
            return false;
        }
        let dest_ip_addr = read_ipv6(slice, 38);
        match find_ipv6_fib(&tables.ipv6_fib, &dest_ip_addr, 128) {
            Some(fib) => {
                match fib.get_fib_type() {
                    FIBType::Local => slice[20] == 58,
                    FIBType::Adjacent => false,
                    FIBType::AdjacentResolved => false,
                    FIBType::Remote => false,
                }
            },
            None => false,
        }
    }

    /// The frames of `batch` that go on to the local stage, in their
    /// order.
    pub fn select(&self, tables: &ForwardingTables, batch: Vec<DataFromNetif>) -> (local_pkts: Vec<DataFromNetif>)
        requires
            tables.wf(),
            forall|j: int| 0 <= j < batch@.len() ==> (#[trigger] batch@[j]).wf(),
        ensures
            frames_of(local_pkts@) == ipv6_in_bin(tables@, frames_of(batch@)),
            forall|j: int| 0 <= j < local_pkts@.len() ==> (#[trigger] local_pkts@[j]).wf(),
    {
        let ghost frames = frames_of(batch@);
        let mut local_pkts: Vec<DataFromNetif> = Vec::new();
        let mut rest = reversed(batch);
        assert(frames.subrange(0, 0) =~= Seq::<FrameView>::empty());
        assert(frames_of(local_pkts@) =~= Seq::<FrameView>::empty());
        while rest.len() > 0
            invariant
                tables.wf(),
                rest@.len() <= frames.len(),
                frames == frames_of(batch@),
                forall|j: int| 0 <= j < batch@.len() ==> (#[trigger] batch@[j]).wf(),
                forall|j: int| 0 <= j < rest@.len() ==> #[trigger] rest@[j] == batch@[batch@.len() - 1 - j],
                forall|j: int| 0 <= j < local_pkts@.len() ==> (#[trigger] local_pkts@[j]).wf(),
                frames_of(local_pkts@) == ipv6_in_bin(tables@, frames.subrange(0, frames.len() - rest@.len())),
            decreases rest@.len(),
        {
            let ghost k = frames.len() - rest@.len();
            let ghost done = frames.subrange(0, k);
            let ghost before = local_pkts@;
            match rest.pop() {
                Some(frame) => {
                    proof {
                        assert(frame == batch@[k]);
                        assert(frames.subrange(0, k + 1).drop_last() =~= done);
                        assert(frames.subrange(0, k + 1).last() == frame.frame());
                    }
                    if self.passes(tables, &frame) {
                        local_pkts.push(frame);
                        assert(frames_of(local_pkts@) =~= frames_of(before).push(frame.frame()));
                    }
                },
                None => {},
            }
        }
        assert(frames.subrange(0, frames.len() as int) =~= frames);
        local_pkts
    }
}

impl ProcessingNode for Ipv6In {
    fn process<N: Netif>(&self, tables: &mut ForwardingTables, netifs: &Vec<N>, batch: Vec<DataFromNetif>) -> (requests:
        Vec<TransmitRequest>)
        ensures
            final(tables)@ == neighbor_tables(old(tables)@, ipv6_in_bin(old(tables)@, frames_of(batch@))),
            requests_of(requests@) == echo6_requests(
                interface_macs(netifs@),
                ipv6_in_bin(old(tables)@, frames_of(batch@)),
            ),
    {
        let local_pkts = self.select(tables, batch);
        Icmpv6InLocal::new().process(tables, netifs, local_pkts)
    }
}

/// The local stage of IPv6 for packets whose next header is 58: it answers
/// echo requests and learns neighbours from their advertisements.
pub struct Icmpv6InLocal;

impl Icmpv6InLocal {
    pub fn new() -> (r: Icmpv6InLocal)
        ensures
            r == Icmpv6InLocal,
    {
        Icmpv6InLocal {  }
    }

    /// Looks for the link-layer address among the options in
    /// `slice[first..end]`.
    pub fn find_target_link_address(slice: &[u8], first: usize, end: usize) -> (r: Option<MacAddress>)
        requires
            first <= end <= slice@.len(),
        ensures
            match r {
                Some(mac) => target_link_address(slice@.subrange(first as int, end as int), 0) == Some(mac.octets())
                    && mac == MacAddress::from_octets(
                    target_link_address(slice@.subrange(first as int, end as int), 0).unwrap(),
                ),
                None => target_link_address(slice@.subrange(first as int, end as int), 0) is None,
            },
    {
        let ghost opts = slice@.subrange(first as int, end as int);
        let mut at: usize = first;
        while end - at >= 2
            invariant
                first <= at <= end <= slice@.len(),
                opts == slice@.subrange(first as int, end as int),
                target_link_address(opts, 0) == target_link_address(opts, (at - first) as nat),
            decreases end - at,
        {
            let option: u8 = slice[at];
            let units: usize = slice[at + 1] as usize;
            if units == 0 || units * 8 > end - at {
                return None;
            }
            if option == 2 {
                let mac = read_mac(slice, at + 2);
                assert(opts.subrange(at - first + 2, at - first + 8) =~= slice@.subrange(at + 2, at + 8));
                return Some(mac);
            }
            at = at + units * 8;
        }
        None
    }

    /// Handles one frame: answers it if it holds an echo request, and
    /// learns from it if it holds a neighbour advertisement.
    pub fn process_frame<N: Netif>(&self, tables: &mut ForwardingTables, netifs: &Vec<N>, frame: &DataFromNetif) -> (r:
        Option<TransmitRequest>)
        requires
            old(tables).wf(),
            frame.wf(),
        ensures
            final(tables).wf(),
            final(tables)@ == neighbor_learn(old(tables)@, frame.frame()),
            match r {
                Some(request) => echo6_reply(interface_macs(netifs@), frame.frame()) == Some(request@),
                None => echo6_reply(interface_macs(netifs@), frame.frame()) is None,
            },
    {
        let slice = frame.get_buffer().slice();
        if slice.len() < 62 {
            return None;
        }
        let length: usize = (slice[18] as usize) * 256 + (slice[19] as usize);
        if slice.len() < 54 + length {
            return None;
        }
        if slice[54] == 0x80 {
            if length < 8 {
                return None;
            }
            let netif: usize = frame.get_netif();
            if netif >= netifs.len() {
                return None;
            }
            let our_mac: MacAddress = *netifs[netif].get_macaddress();
            let dest_mac = read_mac(slice, 6);
            let mut reply: Vec<u8> = vec![0u8; 14];
            generate_ether_header(reply.as_mut_slice(), our_mac, dest_mac, [0x86, 0xdd]);
            let mut header: Vec<u8> = vec![0u8; 40];
            let len: [u8; 2] = [slice[18], slice[19]];
            assert(len@ =~= slice@.subrange(18, 20));
            generate_ipv6_header(header.as_mut_slice(), len, 58, read_ipv6(slice, 38), read_ipv6(slice, 22));
            append(&mut reply, header.as_slice());
            reply.push(0x81);
            reply.push(slice[55]);
            reply.push(0x00);
            reply.push(0x00);
            append(&mut reply, slice_subrange(slice, 58, 54 + length));
            assert(reply@ =~= echo6_reply_unsummed(our_mac, slice@));
            let ghost f0 = reply@;
            let src_sum: u32 = sum_words(slice_subrange(reply.as_slice(), 22, 38));
            let dest_sum: u32 = sum_words(slice_subrange(reply.as_slice(), 38, 54));
            let initial: u32 = src_sum + dest_sum + (length as u32) + 58;
            let message_sum: u16 = checksum(initial, slice_subrange(reply.as_slice(), 54, 54 + length));
            reply[56] = (message_sum >> 8) as u8;
            reply[57] = (message_sum & 0xff) as u8;
            assert(reply@ == echo6_reply_frame(our_mac, slice@));
            Some(TransmitRequest { netif, frame: reply })
        } else if slice[54] == 0x88 {
            if slice.len() < 78 || length < 24 {
                return None;
            }
            match Self::find_target_link_address(slice, 78, 54 + length) {
                Some(src_mac) => {
                    let src_ip = read_ipv6(slice, 62);
                    proof {
                        lemma_ipv6_mask(src_ip.prim(), 128);
                    }
                    register_ipv6_fib(
                        &mut tables.ipv6_fib,
                        src_ip,
                        128,
                        src_mac,
                        src_ip,
                        frame.get_netif(),
                        FIBType::AdjacentResolved,
                    );
                    register_ipv6_adjacent(
                        &mut tables.ipv6_adjacent,
                        src_ip,
                        src_mac,
                        frame.get_netif(),
                        false,
                        None,
                    );
                    None
                },
                None => None,
            }
        } else {
            None
        }
    }
}

impl ProcessingNode for Icmpv6InLocal {
    fn process<N: Netif>(&self, tables: &mut ForwardingTables, netifs: &Vec<N>, batch: Vec<DataFromNetif>) -> (requests:
        Vec<TransmitRequest>)
        ensures
            final(tables)@ == neighbor_tables(old(tables)@, frames_of(batch@)),
            requests_of(requests@) == echo6_requests(interface_macs(netifs@), frames_of(batch@)),
    {
        let ghost frames = frames_of(batch@);
        let ghost t0 = tables@;
        let ghost macs = interface_macs(netifs@);
        let mut requests: Vec<TransmitRequest> = Vec::new();
        let mut rest = reversed(batch);
        assert(frames.subrange(0, 0) =~= Seq::<FrameView>::empty());
        assert(requests_of(requests@) =~= Seq::<RequestView>::empty());
        while rest.len() > 0
            invariant
                tables.wf(),
                rest@.len() <= frames.len(),
                frames == frames_of(batch@),
                macs == interface_macs(netifs@),
                forall|j: int| 0 <= j < batch@.len() ==> (#[trigger] batch@[j]).wf(),
                forall|j: int| 0 <= j < rest@.len() ==> #[trigger] rest@[j] == batch@[batch@.len() - 1 - j],
                tables@ == neighbor_tables(t0, frames.subrange(0, frames.len() - rest@.len())),
                requests_of(requests@) == echo6_requests(macs, frames.subrange(0, frames.len() - rest@.len())),
            decreases rest@.len(),
        {
            let ghost k = frames.len() - rest@.len();
            let ghost done = frames.subrange(0, k);
            let ghost before = requests@;
            match rest.pop() {
                Some(frame) => {
                    proof {
                        assert(frame == batch@[k]);
                        assert(frames.subrange(0, k + 1).drop_last() =~= done);
                        assert(frames.subrange(0, k + 1).last() == frame.frame());
                    }
                    match self.process_frame(tables, netifs, &frame) {
                        Some(request) => {
                            requests.push(request);
                            assert(requests_of(requests@) =~= requests_of(before).push(request@));
                        },
                        None => {},
                    }
                },
                None => {},
            }
        }
        assert(frames.subrange(0, frames.len() as int) =~= frames);
        requests
    }
}

} // verus!
