//! IPv4 addresses and the IPv4 ingress stages.

use vstd::prelude::*;
use vstd::slice::slice_subrange;
use crate::devices::netif::Netif;
use crate::net::{
    DataFromNetif, FrameView, ProcessingNode, RequestView, TransmitRequest, append, checksum, checksum_valid, frames_of,
    interface_macs, internet_checksum, law_checksum_validates, requests_of, reversed, with_checksum,
};
use crate::net::ethernet::{MacAddress, ether_header, generate_ether_header, lemma_mac_from_octets, mac_at, read_mac};
use crate::net::fib::{
    FIBType, ForwardingTables, ForwardingTablesView, find_ipv4_fib, ipv4_longest_match, lemma_ipv4_host_mask,
};

verus! {

/// The 32-bit value whose big-endian octets are `a`.
pub open spec fn ipv4_prim_of(a: Seq<u8>) -> u32 {
    ((a[0] as u32) << 24) | ((a[1] as u32) << 16) | ((a[2] as u32) << 8) | (a[3] as u32)
}

/// The network mask of a prefix length: the top `prefix_length` bits set.
pub open spec fn ipv4_netmask(prefix_length: u32) -> u32 {
    if prefix_length == 0 {
        0u32
    } else {
        0xffff_ffffu32 << ((32 - prefix_length) as u32)
    }
}

/// An IPv4 address, kept as one integer in host order.
#[derive(Debug, Copy, Clone, PartialEq, Eq, Ord, Hash, Structural)]
pub struct Ipv4Address {
    addr_prim: u32,
}

pub proof fn lemma_ipv4_pack_unpack(a0: u8, a1: u8, a2: u8, a3: u8)
    by (bit_vector)
    ensures
        ({
            let p: u32 = ((a0 as u32) << 24) | ((a1 as u32) << 16) | ((a2 as u32) << 8) | (a3 as u32);
            &&& (p >> 24) as u8 == a0
            &&& ((p >> 16) & 0xff) as u8 == a1
            &&& ((p >> 8) & 0xff) as u8 == a2
            &&& (p & 0xff) as u8 == a3
        }),
{
}

pub proof fn lemma_ipv4_mask(x: u32, p: u32)
    by (bit_vector)
    requires
        p <= 32,
    ensures
        ({
            let m: u32 = if p == 0 { 0u32 } else { 0xffff_ffffu32 << ((32 - p) as u32) };
            &&& (x & m) & m == x & m
            &&& ((x & m) as u64) & (((1u64 << ((32 - p) as u64)) - 1) as u64) == 0
            &&& (p == 32 ==> x & m == x)
            &&& (p == 0 ==> x & m == 0)
        }),
{
}

impl Ipv4Address {
    /// The address as an integer.
    pub closed spec fn prim(self) -> u32 {
        self.addr_prim
    }

    /// The address of four octets.
    pub closed spec fn from_octets(a: Seq<u8>) -> Ipv4Address {
        Ipv4Address { addr_prim: ipv4_prim_of(a) }
    }

    /// The four octets of the address, most significant first.
    pub open spec fn octets(self) -> Seq<u8> {
        seq![
            (self.prim() >> 24) as u8,
            ((self.prim() >> 16) & 0xff) as u8,
            ((self.prim() >> 8) & 0xff) as u8,
            (self.prim() & 0xff) as u8,
        ]
    }

    /// The address of four octets, most significant first.
    pub fn from_array(arr: [u8; 4]) -> (r: Ipv4Address)
        ensures
            r == Ipv4Address::from_octets(arr@),
            r.prim() == ipv4_prim_of(arr@),
            r.octets() == arr@,
    {
        let prim: u32 = ((arr[0] as u32) << 24) | ((arr[1] as u32) << 16) | ((arr[2] as u32) << 8) | (arr[3] as u32);
        let r = Ipv4Address { addr_prim: prim };
        proof {
            lemma_ipv4_pack_unpack(arr[0], arr[1], arr[2], arr[3]);
            assert(r.octets() =~= arr@);
        }
        r
    }

    /// The address with all but its first `prefix_length` bits cleared.
    pub fn masked(&self, prefix_length: u32) -> (r: Ipv4Address)
        requires
            prefix_length <= 32,
        ensures
            r.prim() == self.prim() & ipv4_netmask(prefix_length),
    {
        let mask: u32 = if prefix_length == 0 {
            0
        } else {
            0xffff_ffffu32 << (32 - prefix_length)
        };
        Ipv4Address { addr_prim: self.addr_prim & mask }
    }

    /// The four octets of the address, most significant first.
    pub fn get_array(&self) -> (r: [u8; 4])
        ensures
            r@ == self.octets(),
    {
        let p = self.addr_prim;
        let r: [u8; 4] = [(p >> 24) as u8, ((p >> 16) & 0xff) as u8, ((p >> 8) & 0xff) as u8, (p & 0xff) as u8];
        assert(r@ =~= self.octets());
        r
    }

    /// The address as an integer.
    pub fn get_prim(&self) -> (r: u32)
        ensures
            r == self.prim(),
    {
        self.addr_prim
    }
}

/// The address of four octets has those octets.
pub proof fn lemma_ipv4_from_octets(a: Seq<u8>)
    requires
        a.len() == 4,
    ensures
        Ipv4Address::from_octets(a).prim() == ipv4_prim_of(a),
        Ipv4Address::from_octets(a).octets() == a,
{
    lemma_ipv4_pack_unpack(a[0], a[1], a[2], a[3]);
    assert(Ipv4Address::from_octets(a).octets() =~= a);
}

/// An address is its integer: two addresses with the same integer are the
/// same address.
pub proof fn law_ipv4_prim_decides(x: Ipv4Address, y: Ipv4Address)
    ensures
        (x.prim() == y.prim()) == (x == y),
{
}

/// Packing four octets and unpacking the result gives the octets back.
pub proof fn law_ipv4_array_round_trip(a: Seq<u8>, x: Ipv4Address)
    requires
        a.len() == 4,
        x.prim() == ipv4_prim_of(a),
    ensures
        x.octets() == a,
{
    lemma_ipv4_pack_unpack(a[0], a[1], a[2], a[3]);
    assert(x.octets() =~= a);
}

/// Masking is idempotent, and a masked address has no bit set below the
/// prefix: of its 32 bits the lowest `32 - p` are zero.
pub proof fn law_ipv4_masking(x: Ipv4Address, m: Ipv4Address, mm: Ipv4Address, p: u32)
    requires
        p <= 32,
        m.prim() == x.prim() & ipv4_netmask(p),
        mm.prim() == m.prim() & ipv4_netmask(p),
    ensures
        mm == m,
        (m.prim() as u64) & (((1u64 << ((32 - p) as u64)) - 1) as u64) == 0,
        p == 32 ==> m == x,
{
    lemma_ipv4_mask(x.prim(), p);
}

/// The address in the four bytes of `s` from `offset` on.
pub open spec fn ipv4_at(s: Seq<u8>, offset: int) -> Ipv4Address {
    Ipv4Address::from_octets(s.subrange(offset, offset + 4))
}

/// Reads the address in the four bytes of `s` from `offset` on.
pub fn read_ipv4(s: &[u8], offset: usize) -> (r: Ipv4Address)
    requires
        offset + 4 <= s@.len(),
    ensures
        r == ipv4_at(s@, offset as int),
        r.octets() == s@.subrange(offset as int, offset + 4),
{
    let octets: [u8; 4] = [s[offset], s[offset + 1], s[offset + 2], s[offset + 3]];
    assert(octets@ =~= s@.subrange(offset as int, offset + 4));
    Ipv4Address::from_array(octets)
}

/// An IPv4 header without options: version 4, twenty bytes, the total
/// length `len`, no identification, "do not fragment", a time to live of
/// 64, and a checksum field of zero.
pub open spec fn ipv4_header(len: Seq<u8>, proto: u8, src: Ipv4Address, dest: Ipv4Address) -> Seq<u8> {
    seq![0x45u8, 0x00u8, len[0], len[1], 0x00u8, 0x00u8, 0x40u8, 0x00u8, 64u8, proto, 0x00u8, 0x00u8] + src.octets()
        + dest.octets()
}

/// Writes an IPv4 header to the first twenty bytes of `buffer`.
pub fn generate_ipv4_header(buffer: &mut [u8], len: [u8; 2], proto: u8, src_ip: Ipv4Address, dest_ip: Ipv4Address)
    requires
        old(buffer)@.len() >= 20,
    ensures
        final(buffer)@ == ipv4_header(len@, proto, src_ip, dest_ip) + old(buffer)@.subrange(
            20,
            old(buffer)@.len() as int,
        ),
{
    let src = src_ip.get_array();
    let dest = dest_ip.get_array();
    buffer[0] = 0x45;
    buffer[1] = 0x00;
    buffer[2] = len[0];
    buffer[3] = len[1];
    buffer[4] = 0x00;
    buffer[5] = 0x00;
    buffer[6] = 0x40;
    buffer[7] = 0x00;
    buffer[8] = 64;
    buffer[9] = proto;
    buffer[10] = 0x00;
    buffer[11] = 0x00;
    buffer[12] = src[0];
    buffer[13] = src[1];
    buffer[14] = src[2];
    buffer[15] = src[3];
    buffer[16] = dest[0];
    buffer[17] = dest[1];
    buffer[18] = dest[2];
    buffer[19] = dest[3];
    assert(buffer@ =~= ipv4_header(len@, proto, src_ip, dest_ip) + old(buffer)@.subrange(
        20,
        old(buffer)@.len() as int,
    ));
}

/// Whether the IPv4 ingress stage passes a frame on to the local ICMP
/// stage: the packet is of version 4, the longest route that covers its
/// destination leads to this host, and it carries ICMP.
pub open spec fn ipv4_in_passes(t: ForwardingTablesView, s: Seq<u8>) -> bool {
    &&& s.len() >= 34
    &&& s[14] & 0xf0 == 0x40
    &&& ipv4_longest_match(t.ipv4_fib, ipv4_at(s, 30).prim(), 32) matches Some(fib) && fib.fib_type == FIBType::Local
    &&& s[23] == 0x01
}

/// The frames of `frames` that the IPv4 ingress stage passes on to the
/// local ICMP stage, in their order.
pub open spec fn ipv4_in_bin(t: ForwardingTablesView, frames: Seq<FrameView>) -> Seq<FrameView>
    decreases frames.len(),
{
    if frames.len() == 0 {
        Seq::<FrameView>::empty()
    } else {
        let before = ipv4_in_bin(t, frames.drop_last());
        if ipv4_in_passes(t, frames.last().bytes) {
            before.push(frames.last())
        } else {
            before
        }
    }
}

/// The length of the IPv4 header of the frame `s`, in bytes.
pub open spec fn ipv4_header_len(s: Seq<u8>) -> int {
    (s[14] & 0x0f) as int * 4
}

/// The total length that the IPv4 header of the frame `s` states.
pub open spec fn ipv4_total_len(s: Seq<u8>) -> int {
    s[16] as int * 256 + s[17] as int
}

/// The length of what the IPv4 packet of the frame `s` carries.
pub open spec fn ipv4_payload_len(s: Seq<u8>) -> int {
    ipv4_total_len(s) - ipv4_header_len(s)
}

/// Whether the frame `s` holds an ICMP echo request that can be answered:
/// the header is of twenty bytes or more, the packet holds at least an
/// ICMP header, all of it is in the frame, and its type is that of an echo
/// request.
pub open spec fn echo4_request_ok(s: Seq<u8>) -> bool {
    &&& s.len() >= 34
    &&& ipv4_header_len(s) >= 20
    &&& ipv4_total_len(s) >= ipv4_header_len(s) + 8
    &&& s.len() >= 14 + ipv4_total_len(s)
    &&& s[14 + ipv4_header_len(s)] == 0x08
}

/// The two bytes of a length, most significant first.
pub open spec fn length_bytes(n: int) -> Seq<u8> {
    seq![(n / 256) as u8, (n % 256) as u8]
}

/// The echo reply to the request in the frame `s`, before its checksums
/// are filled in: from `our_mac` to the sender, with the addresses of the
/// packet exchanged, and with the identifier, the sequence number and the
/// data of the request.
pub open spec fn echo4_reply_unsummed(our_mac: MacAddress, s: Seq<u8>) -> Seq<u8> {
    let at = 14 + ipv4_header_len(s);
    let n = ipv4_payload_len(s);
    ether_header(our_mac, mac_at(s, 6), seq![0x08u8, 0x00u8]) + ipv4_header(
        length_bytes(20 + n),
        0x01,
        ipv4_at(s, 30),
        ipv4_at(s, 26),
    ) + seq![0x00u8, 0x00u8, 0x00u8, 0x00u8] + s.subrange(at + 4, at + n)
}

/// The echo reply to the request in the frame `s`: the checksum of the
/// ICMP message is filled in first, then that of the IPv4 header.
pub open spec fn echo4_reply_frame(our_mac: MacAddress, s: Seq<u8>) -> Seq<u8> {
    let f0 = echo4_reply_unsummed(our_mac, s);
    let f1 = with_checksum(f0, 36, internet_checksum(0, f0.subrange(34, f0.len() as int)));
    with_checksum(f1, 24, internet_checksum(0, f1.subrange(14, 34)))
}

/// What the local ICMP stage answers to a frame: an echo reply to an echo
/// request, sent on the interface that the request came in on.
pub open spec fn echo4_reply(macs: Seq<MacAddress>, f: FrameView) -> Option<RequestView> {
    if echo4_request_ok(f.bytes) && f.netif < macs.len() {
        Some(RequestView { netif: f.netif, bytes: echo4_reply_frame(macs[f.netif as int], f.bytes) })
    } else {
        None
    }
}

/// The replies of the local ICMP stage to `frames`, in their order.
pub open spec fn echo4_requests(macs: Seq<MacAddress>, frames: Seq<FrameView>) -> Seq<RequestView>
    decreases frames.len(),
{
    if frames.len() == 0 {
        Seq::<RequestView>::empty()
    } else {
        let before = echo4_requests(macs, frames.drop_last());
        match echo4_reply(macs, frames.last()) {
            Some(r) => before.push(r),
            None => before,
        }
    }
}

proof fn lemma_low_nibble(x: u8)
    by (bit_vector)
    ensures
        x & 0x0f <= 15,
{
}

/// An echo reply has the length of its request. It goes back to the
/// sender, from the host's own link-layer address and from the address that
/// the request was sent to. It carries the identifier, the sequence number
/// and the data of the request, byte for byte, and both its IPv4 header
/// and its ICMP message check.
pub proof fn law_echo4_reply(our_mac: MacAddress, s: Seq<u8>)
    requires
        echo4_request_ok(s),
    ensures
        ({
            let r = echo4_reply_frame(our_mac, s);
            let n = ipv4_payload_len(s);
            let at = 14 + ipv4_header_len(s);
            &&& r.len() == 34 + n
            &&& r.subrange(0, 6) == s.subrange(6, 12)
            &&& r.subrange(6, 12) == our_mac.octets()
            &&& r[12] == 0x08
            &&& r[13] == 0x00
            &&& r[14] == 0x45
            &&& r[20] == 0x40
            &&& r[22] == 64
            &&& r[23] == 0x01
            &&& r.subrange(26, 30) == s.subrange(30, 34)
            &&& r.subrange(30, 34) == s.subrange(26, 30)
            &&& r[34] == 0x00
            &&& r[35] == 0x00
            &&& r.subrange(38, 34 + n) == s.subrange(at + 4, at + n)
            &&& checksum_valid(0, r.subrange(14, 34))
            &&& checksum_valid(0, r.subrange(34, 34 + n))
        }),
{
    let f0 = echo4_reply_unsummed(our_mac, s);
    let n = ipv4_payload_len(s);
    let at = 14 + ipv4_header_len(s);
    lemma_low_nibble(s[14]);
    lemma_mac_from_octets(s.subrange(6, 12));
    lemma_ipv4_from_octets(s.subrange(30, 34));
    lemma_ipv4_from_octets(s.subrange(26, 30));
    assert(f0.len() == 34 + n);
    let message0 = f0.subrange(34, 34 + n);
    let c1 = internet_checksum(0, message0);
    let f1 = with_checksum(f0, 36, c1);
    law_checksum_validates(0, message0, 2);
    assert(f1.subrange(34, 34 + n) =~= message0.update(2, (c1 >> 8) as u8).update(3, (c1 & 0xff) as u8));
    let ip0 = f1.subrange(14, 34);
    let c2 = internet_checksum(0, ip0);
    let r = with_checksum(f1, 24, c2);
    law_checksum_validates(0, ip0, 10);
    assert(r.subrange(14, 34) =~= ip0.update(10, (c2 >> 8) as u8).update(11, (c2 & 0xff) as u8));
    assert(r.subrange(34, 34 + n) =~= f1.subrange(34, 34 + n));
    assert(r.subrange(0, 6) =~= s.subrange(6, 12));
    assert(r.subrange(6, 12) =~= our_mac.octets());
    assert(r.subrange(26, 30) =~= s.subrange(30, 34));
    assert(r.subrange(30, 34) =~= s.subrange(26, 30));
    assert(r.subrange(38, 34 + n) =~= s.subrange(at + 4, at + n));
}

/// The IPv4 ingress stage: it passes ICMP packets for this host on to the
/// local ICMP stage and drops what else comes in.
pub struct Ipv4In;

impl Ipv4In {
    pub fn new() -> (r: Ipv4In)
        ensures
            r == Ipv4In,
    {
        Ipv4In {  }
    }

    /// Whether a frame goes on to the local ICMP stage.
    pub fn passes(&self, tables: &ForwardingTables, frame: &DataFromNetif) -> (r: bool)
        requires
            tables.wf(),
            frame.wf(),
        ensures
            r == ipv4_in_passes(tables@, frame@),
    {
        let slice = frame.get_buffer().slice();
        if slice.len() < 34 {
            return false;
        }
        if (slice[14] & 0xf0) != 0x40 {
            return false;
        }
        let dest_ip_addr = read_ipv4(slice, 30);
        proof {
            lemma_ipv4_host_mask();
        }
        match find_ipv4_fib(&tables.ipv4_fib, &dest_ip_addr, 0xffff_ffff) {
            Some(fib) => {
                match fib.get_fib_type() {
                    FIBType::Local => slice[23] == 0x01,
                    FIBType::Adjacent => false,
                    FIBType::AdjacentResolved => false,
                    FIBType::Remote => false,
                }
            },
            None => false,
        }
    }
}

impl Ipv4In {
    /// The frames of `batch` that go on to the local stage, in their
    /// order.
    pub fn select(&self, tables: &ForwardingTables, batch: Vec<DataFromNetif>) -> (local_pkts: Vec<DataFromNetif>)
        requires
            tables.wf(),
            forall|j: int| 0 <= j < batch@.len() ==> (#[trigger] batch@[j]).wf(),
        ensures
            frames_of(local_pkts@) == ipv4_in_bin(tables@, frames_of(batch@)),
            forall|j: int| 0 <= j < local_pkts@.len() ==> (#[trigger] local_pkts@[j]).wf(),
    {
        let ghost frames = frames_of(batch@);
        let mut local_pkts: Vec<DataFromNetif> = Vec::new();
        let mut rest = reversed(batch);
        assert(frames.subrange(0, 0) =~= Seq::<FrameView>::empty());
        assert(frames_of(local_pkts@) =~= Seq::<FrameView>::empty());
        while rest.len() > 0
            invariant
                tables.wf(),
                rest@.len() <= frames.len(),
                frames == frames_of(batch@),
                forall|j: int| 0 <= j < batch@.len() ==> (#[trigger] batch@[j]).wf(),
                forall|j: int| 0 <= j < rest@.len() ==> #[trigger] rest@[j] == batch@[batch@.len() - 1 - j],
                forall|j: int| 0 <= j < local_pkts@.len() ==> (#[trigger] local_pkts@[j]).wf(),
                frames_of(local_pkts@) == ipv4_in_bin(tables@, frames.subrange(0, frames.len() - rest@.len())),
            decreases rest@.len(),
        {
            let ghost k = frames.len() - rest@.len();
            let ghost done = frames.subrange(0, k);
            let ghost before = local_pkts@;
            match rest.pop() {
                Some(frame) => {
                    proof {
                        assert(frame == batch@[k]);
                        assert(frames.subrange(0, k + 1).drop_last() =~= done);
                        assert(frames.subrange(0, k + 1).last() == frame.frame());
                    }
                    if self.passes(tables, &frame) {
                        local_pkts.push(frame);
                        assert(frames_of(local_pkts@) =~= frames_of(before).push(frame.frame()));
                    }
                },
                None => {},
            }
        }
        assert(frames.subrange(0, frames.len() as int) =~= frames);
        local_pkts
    }
}

impl ProcessingNode for Ipv4In {
    fn process<N: Netif>(&self, tables: &mut ForwardingTables, netifs: &Vec<N>, batch: Vec<DataFromNetif>) -> (requests:
        Vec<TransmitRequest>)
        ensures
            final(tables)@ == old(tables)@,
            requests_of(requests@) == echo4_requests(
                interface_macs(netifs@),
                ipv4_in_bin(old(tables)@, frames_of(batch@)),
            ),
    {
        let local_pkts = self.select(tables, batch);
        Icmpv4InLocal::new().process(tables, netifs, local_pkts)
    }
}

/// The local ICMP stage of IPv4: it answers echo requests.
pub struct Icmpv4InLocal;

impl Icmpv4InLocal {
    pub fn new() -> (r: Icmpv4InLocal)
        ensures
            r == Icmpv4InLocal,
    {
        Icmpv4InLocal {  }
    }

    /// Answers one frame if it holds an echo request.
    pub fn process_frame<N: Netif>(&self, netifs: &Vec<N>, frame: &DataFromNetif) -> (r: Option<TransmitRequest>)
        requires
            frame.wf(),
        ensures
            match r {
                Some(request) => echo4_reply(interface_macs(netifs@), frame.frame()) == Some(request@),
                None => echo4_reply(interface_macs(netifs@), frame.frame()) is None,
            },
    {
        let slice = frame.get_buffer().slice();
        if slice.len() < 34 {
            return None;
        }
        proof {
            lemma_low_nibble(slice@[14]);
        }
        let header_len: usize = ((slice[14] & 0x0f) as usize) * 4;
        let total: usize = (slice[16] as usize) * 256 + (slice[17] as usize);
        if header_len < 20 || total < header_len + 8 || slice.len() < 14 + total {
            return None;
        }
        let at: usize = 14 + header_len;
        if slice[at] != 0x08 {
            return None;
        }
        let netif: usize = frame.get_netif();
        if netif >= netifs.len() {
            return None;
        }
        let length: usize = total - header_len;
        let our_mac: MacAddress = *netifs[netif].get_macaddress();
        let dest_mac = read_mac(slice, 6);
        let mut reply: Vec<u8> = vec![0u8; 14];
        generate_ether_header(reply.as_mut_slice(), our_mac, dest_mac, [0x08, 0x00]);
        let mut header: Vec<u8> = vec![0u8; 20];
        let len: [u8; 2] = [((20 + length) / 256) as u8, ((20 + length) % 256) as u8];
        assert(len@ =~= length_bytes(20 + length));
        generate_ipv4_header(header.as_mut_slice(), len, 0x01, read_ipv4(slice, 30), read_ipv4(slice, 26));
        append(&mut reply, header.as_slice());
        reply.push(0x00);
        reply.push(0x00);
        reply.push(0x00);
        reply.push(0x00);
        append(&mut reply, slice_subrange(slice, at + 4, at + length));
        assert(reply@ =~= echo4_reply_unsummed(our_mac, slice@));
        let ghost f0 = reply@;
        let end: usize = reply.len();
        let message_sum: u16 = checksum(0, slice_subrange(reply.as_slice(), 34, end));
        reply[36] = (message_sum >> 8) as u8;
        reply[37] = (message_sum & 0xff) as u8;
        assert(reply@ == with_checksum(f0, 36, message_sum));
        let ghost f1 = reply@;
        let header_sum: u16 = checksum(0, slice_subrange(reply.as_slice(), 14, 34));
        reply[24] = (header_sum >> 8) as u8;
        reply[25] = (header_sum & 0xff) as u8;
        assert(reply@ == with_checksum(f1, 24, header_sum));
        Some(TransmitRequest { netif, frame: reply })
    }
}

impl ProcessingNode for Icmpv4InLocal {
    fn process<N: Netif>(&self, tables: &mut ForwardingTables, netifs: &Vec<N>, batch: Vec<DataFromNetif>) -> (requests:
        Vec<TransmitRequest>)
        ensures
            final(tables)@ == old(tables)@,
            requests_of(requests@) == echo4_requests(interface_macs(netifs@), frames_of(batch@)),
    {
        let ghost frames = frames_of(batch@);
        let ghost macs = interface_macs(netifs@);
        let mut requests: Vec<TransmitRequest> = Vec::new();
        let mut rest = reversed(batch);
        assert(frames.subrange(0, 0) =~= Seq::<FrameView>::empty());
        assert(requests_of(requests@) =~= Seq::<RequestView>::empty());
        while rest.len() > 0
            invariant
                rest@.len() <= frames.len(),
                frames == frames_of(batch@),
                macs == interface_macs(netifs@),
                forall|j: int| 0 <= j < batch@.len() ==> (#[trigger] batch@[j]).wf(),
                forall|j: int| 0 <= j < rest@.len() ==> #[trigger] rest@[j] == batch@[batch@.len() - 1 - j],
                requests_of(requests@) == echo4_requests(macs, frames.subrange(0, frames.len() - rest@.len())),
            decreases rest@.len(),
        {
            let ghost k = frames.len() - rest@.len();
            let ghost done = frames.subrange(0, k);
            let ghost before = requests@;
            match rest.pop() {
                Some(frame) => {
                    proof {
                        assert(frame == batch@[k]);
                        assert(frames.subrange(0, k + 1).drop_last() =~= done);
                        assert(frames.subrange(0, k + 1).last() == frame.frame());
                    }
                    match self.process_frame(netifs, &frame) {
                        Some(request) => {
                            requests.push(request);
                            assert(requests_of(requests@) =~= requests_of(before).push(request@));
                        },
                        None => {},
                    }
                },
                None => {},
            }
        }
        assert(frames.subrange(0, frames.len() as int) =~= frames);
        requests
    }
}

} // verus!
