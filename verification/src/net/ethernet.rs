//! Link-layer addresses, the Ethernet header and the Ethernet ingress stage.

use vstd::prelude::*;
use crate::devices::netif::Netif;
use crate::net::{
    DataFromNetif, FrameView, ProcessingNode, RequestView, TransmitRequest, frames_of, interface_macs, requests_of,
    reversed,
};
use crate::net::arp::{ArpIn, arp_in_requests, arp_in_tables};
use crate::net::fib::{
    AdjacentInformation, ForwardingTables, ForwardingTablesView, MacAddressTable, adjacency_after, register_macaddress,
};
use crate::net::ipv4::{Ipv4In, echo4_requests, ipv4_in_bin};
use crate::net::ipv6::{Ipv6In, echo6_requests, ipv6_in_bin, neighbor_tables};

verus! {

/// The packed value of six octets: octet 0 in the lowest byte, octet 5 in
/// bits 40 to 47.
pub open spec fn mac_prim_of(a: Seq<u8>) -> u64 {
    ((a[5] as u64) << 40) | ((a[4] as u64) << 32) | ((a[3] as u64) << 24) | ((a[2] as u64) << 16)
        | ((a[1] as u64) << 8) | (a[0] as u64)
}

/// The six octets of a packed value, octet 0 first.
pub open spec fn mac_octets_of(p: u64) -> Seq<u8> {
    seq![
        (p & 0xff) as u8,
        ((p >> 8) & 0xff) as u8,
        ((p >> 16) & 0xff) as u8,
        ((p >> 24) & 0xff) as u8,
        ((p >> 32) & 0xff) as u8,
        ((p >> 40) & 0xff) as u8,
    ]
}

/// A 48-bit link-layer address. It is held as its packed value, by which
/// addresses are compared and ordered.
#[derive(Debug, Copy, Clone, PartialEq, Eq, Ord, Hash, Structural)]
pub struct MacAddress {
    addr_prim: u64,
}

pub proof fn lemma_mac_pack_unpack(a0: u8, a1: u8, a2: u8, a3: u8, a4: u8, a5: u8)
    by (bit_vector)
    ensures
        ({
            let p: u64 = ((a5 as u64) << 40) | ((a4 as u64) << 32) | ((a3 as u64) << 24) | ((a2 as u64) << 16)
                | ((a1 as u64) << 8) | (a0 as u64);
            &&& p < 0x1_0000_0000_0000u64
            &&& (p & 0xff) as u8 == a0
            &&& ((p >> 8) & 0xff) as u8 == a1
            &&& ((p >> 16) & 0xff) as u8 == a2
            &&& ((p >> 24) & 0xff) as u8 == a3
            &&& ((p >> 32) & 0xff) as u8 == a4
            &&& ((p >> 40) & 0xff) as u8 == a5
        }),
{
}

pub proof fn lemma_mac_unpack_pack(p: u64)
    by (bit_vector)
    requires
        p < 0x1_0000_0000_0000u64,
    ensures
        (((((p >> 40) & 0xff) as u8) as u64) << 40) | (((((p >> 32) & 0xff) as u8) as u64) << 32) | (((((p >> 24)
            & 0xff) as u8) as u64) << 24) | (((((p >> 16) & 0xff) as u8) as u64) << 16) | (((((p >> 8) & 0xff) as u8) as u64)
            << 8) | (((p & 0xff) as u8) as u64) == p,
{
}

impl MacAddress {
    /// The packed value of the address.
    pub closed spec fn prim(self) -> u64 {
        self.addr_prim
    }

    /// The address of six octets.
    pub closed spec fn from_octets(a: Seq<u8>) -> MacAddress {
        MacAddress { addr_prim: mac_prim_of(a) }
    }

    /// The six octets of the address, in transmission order.
    pub open spec fn octets(self) -> Seq<u8> {
        mac_octets_of(self.prim())
    }

    /// Every address made by `new` is below 2^48.
    pub open spec fn wf(self) -> bool {
        self.prim() < 0x1_0000_0000_0000u64
    }

    pub fn new(addr: [u8; 6]) -> (r: MacAddress)
        ensures
            r == MacAddress::from_octets(addr@),
            r.prim() == mac_prim_of(addr@),
            r.octets() == addr@,
            r.wf(),
    {
        let addr_prim: u64 = ((addr[5] as u64) << 40) | ((addr[4] as u64) << 32) | ((addr[3] as u64) << 24) | ((
        addr[2] as u64) << 16) | ((addr[1] as u64) << 8) | (addr[0] as u64);
        let r = MacAddress { addr_prim };
        proof {
            lemma_mac_pack_unpack(addr[0], addr[1], addr[2], addr[3], addr[4], addr[5]);
            assert(r.octets() =~= addr@);
        }
        r
    }

    /// The six octets of the address, in transmission order.
    pub fn get_array(&self) -> (r: [u8; 6])
        ensures
            r@ == self.octets(),
    {
        let p = self.addr_prim;
        let r: [u8; 6] = [
            (p & 0xff) as u8,
            ((p >> 8) & 0xff) as u8,
            ((p >> 16) & 0xff) as u8,
            ((p >> 24) & 0xff) as u8,
            ((p >> 32) & 0xff) as u8,
            ((p >> 40) & 0xff) as u8,
        ];
        assert(r@ =~= self.octets());
        r
    }

    /// The packed value of the address.
    pub fn get_prim(&self) -> (r: u64)
        ensures
            r == self.prim(),
    {
        self.addr_prim
    }
}

/// The address of six octets is well formed and has those octets.
pub proof fn lemma_mac_from_octets(a: Seq<u8>)
    requires
        a.len() == 6,
    ensures
        MacAddress::from_octets(a).prim() == mac_prim_of(a),
        MacAddress::from_octets(a).octets() == a,
        MacAddress::from_octets(a).wf(),
{
    lemma_mac_pack_unpack(a[0], a[1], a[2], a[3], a[4], a[5]);
    assert(MacAddress::from_octets(a).octets() =~= a);
}

/// Packing six octets and unpacking the result gives the octets back.
pub proof fn law_mac_array_round_trip(a: Seq<u8>, m: MacAddress)
    requires
        a.len() == 6,
        m.prim() == mac_prim_of(a),
    ensures
        m.octets() == a,
        m.wf(),
{
    lemma_mac_pack_unpack(a[0], a[1], a[2], a[3], a[4], a[5]);
    assert(m.octets() =~= a);
}

/// An address is its packed value: two addresses with the same value are
/// the same address.
pub proof fn law_mac_prim_decides(m: MacAddress, n: MacAddress)
    ensures
        (m.prim() == n.prim()) == (m == n),
{
}

/// Two well-formed addresses with the same octets are the same address.
pub proof fn law_mac_octets_decide(m: MacAddress, n: MacAddress)
    requires
        m.wf(),
        n.wf(),
        m.octets() == n.octets(),
    ensures
        m == n,
{
    lemma_mac_unpack_pack(m.prim());
    lemma_mac_unpack_pack(n.prim());
    let a = m.octets();
    let b = n.octets();
    assert(a[0] == b[0] && a[1] == b[1] && a[2] == b[2] && a[3] == b[3] && a[4] == b[4] && a[5] == b[5]);
}

/// The length of the Ethernet header.
pub const ETHER_HEADER_LEN: usize = 14;

/// The address in the six bytes of `s` from `offset` on.
pub open spec fn mac_at(s: Seq<u8>, offset: int) -> MacAddress {
    MacAddress::from_octets(s.subrange(offset, offset + 6))
}

/// Reads the address in the six bytes of `s` from `offset` on.
pub fn read_mac(s: &[u8], offset: usize) -> (r: MacAddress)
    requires
        offset + 6 <= s@.len(),
    ensures
        r == mac_at(s@, offset as int),
        r.octets() == s@.subrange(offset as int, offset + 6),
        r.wf(),
{
    let octets: [u8; 6] = [s[offset], s[offset + 1], s[offset + 2], s[offset + 3], s[offset + 4], s[offset + 5]];
    assert(octets@ =~= s@.subrange(offset as int, offset + 6));
    MacAddress::new(octets)
}

/// The Ethernet header: destination, source, type.
pub open spec fn ether_header(src: MacAddress, dest: MacAddress, frame_type: Seq<u8>) -> Seq<u8> {
    dest.octets() + src.octets() + frame_type
}

/// Writes an Ethernet header to the first fourteen bytes of `buffer`.
pub fn generate_ether_header(buffer: &mut [u8], src_addr: MacAddress, dest_addr: MacAddress, frame_type: [u8; 2])
    requires
        old(buffer)@.len() >= 14,
    ensures
        final(buffer)@ == ether_header(src_addr, dest_addr, frame_type@) + old(buffer)@.subrange(
            14,
            old(buffer)@.len() as int,
        ),
{
    let dest = dest_addr.get_array();
    let src = src_addr.get_array();
    buffer[0] = dest[0];
    buffer[1] = dest[1];
    buffer[2] = dest[2];
    buffer[3] = dest[3];
    buffer[4] = dest[4];
    buffer[5] = dest[5];
    buffer[6] = src[0];
    buffer[7] = src[1];
    buffer[8] = src[2];
    buffer[9] = src[3];
    buffer[10] = src[4];
    buffer[11] = src[5];
    buffer[12] = frame_type[0];
    buffer[13] = frame_type[1];
    assert(buffer@ =~= ether_header(src_addr, dest_addr, frame_type@) + old(buffer)@.subrange(
        14,
        old(buffer)@.len() as int,
    ));
}

/// What an Ethernet frame carries, by its type field.
#[derive(Debug, Copy, Clone, PartialEq, Eq, Structural)]
pub enum EtherClass {
    Arp,
    Ipv4,
    Ipv6,
    /// A tagged frame, or a type that no stage handles.
    Other,
}

/// The class of the type field `t0 t1`.
pub open spec fn ether_class_of(t0: u8, t1: u8) -> EtherClass {
    if t0 == 0x08 && t1 == 0x06 {
        EtherClass::Arp
    } else if t0 == 0x08 && t1 == 0x00 {
        EtherClass::Ipv4
    } else if t0 == 0x86 && t1 == 0xdd {
        EtherClass::Ipv6
    } else {
        EtherClass::Other
    }
}

/// Whether the destination of the frame `s` is the broadcast address.
pub open spec fn is_broadcast(s: Seq<u8>) -> bool {
    s[0] == 0xff && s[1] == 0xff && s[2] == 0xff && s[3] == 0xff && s[4] == 0xff && s[5] == 0xff
}

/// The table of link-layer addresses after a frame was seen: the source of
/// the frame is recorded as not this host's own, on the interface of the
/// frame and without expiry. A frame too short for a header teaches
/// nothing.
pub open spec fn ether_learn(mac: Map<u64, AdjacentInformation>, f: FrameView) -> Map<u64, AdjacentInformation> {
    if f.bytes.len() < 14 {
        mac
    } else {
        adjacency_after(
            mac,
            mac_at(f.bytes, 6).prim(),
            AdjacentInformation { mac_address: mac_at(f.bytes, 6), netif: f.netif, is_local: false, expire_time: None },
        )
    }
}

/// Whether a frame is for this host: it is sent to everyone, or to an
/// address that the table has as this host's own.
pub open spec fn ether_accepts(mac: Map<u64, AdjacentInformation>, s: Seq<u8>) -> bool {
    s.len() >= 14 && (is_broadcast(s) || (mac.contains_key(mac_at(s, 0).prim()) && mac[mac_at(s, 0).prim()].is_local))
}

/// The table of link-layer addresses after all of `frames` were seen.
pub open spec fn ethernet_in_mac(mac: Map<u64, AdjacentInformation>, frames: Seq<FrameView>) -> Map<
    u64,
    AdjacentInformation,
>
    decreases frames.len(),
{
    if frames.len() == 0 {
        mac
    } else {
        ether_learn(ethernet_in_mac(mac, frames.drop_last()), frames.last())
    }
}

/// The frames of `frames` that go on to the stage of `class`, in their
/// order: those of that class that are for this host by the table as it is
/// when the frame has been seen.
pub open spec fn ethernet_in_bin(mac: Map<u64, AdjacentInformation>, frames: Seq<FrameView>, class: EtherClass) -> Seq<
    FrameView,
>
    decreases frames.len(),
{
    if frames.len() == 0 {
        Seq::<FrameView>::empty()
    } else {
        let before = ethernet_in_bin(mac, frames.drop_last(), class);
        let f = frames.last();
        if ether_accepts(ethernet_in_mac(mac, frames), f.bytes) && ether_class_of(f.bytes[12], f.bytes[13]) == class {
            before.push(f)
        } else {
            before
        }
    }
}

/// The tables after the ARP stage saw the ARP frames of `frames`: after
/// all of `frames` taught their sources.
pub open spec fn tables_after_arp(t: ForwardingTablesView, frames: Seq<FrameView>) -> ForwardingTablesView {
    arp_in_tables(
        ForwardingTablesView { mac: ethernet_in_mac(t.mac, frames), ..t },
        ethernet_in_bin(t.mac, frames, EtherClass::Arp),
    )
}

/// The tables after a batch went through the graph. The Ethernet stage
/// sees all frames first; then the ARP stage sees its frames, then the
/// stages of IPv4, then those of IPv6.
pub open spec fn ethernet_in_tables(t: ForwardingTablesView, frames: Seq<FrameView>) -> ForwardingTablesView {
    let t2 = tables_after_arp(t, frames);
    neighbor_tables(t2, ipv6_in_bin(t2, ethernet_in_bin(t.mac, frames, EtherClass::Ipv6)))
}

/// The frames that the graph sends in answer to a batch: the replies of
/// the ARP stage, then the echo replies of IPv4, then those of IPv6.
pub open spec fn ethernet_in_requests(t: ForwardingTablesView, macs: Seq<MacAddress>, frames: Seq<FrameView>) -> Seq<
    RequestView,
> {
    let t2 = tables_after_arp(t, frames);
    arp_in_requests(
        ForwardingTablesView { mac: ethernet_in_mac(t.mac, frames), ..t },
        macs,
        ethernet_in_bin(t.mac, frames, EtherClass::Arp),
    ) + echo4_requests(macs, ipv4_in_bin(t2, ethernet_in_bin(t.mac, frames, EtherClass::Ipv4))) + echo6_requests(
        macs,
        ipv6_in_bin(t2, ethernet_in_bin(t.mac, frames, EtherClass::Ipv6)),
    )
}

/// The frames that the Ethernet ingress stage passes on, by class.
pub struct EthernetBins {
    pub arp: Vec<DataFromNetif>,
    pub ipv4: Vec<DataFromNetif>,
    pub ipv6: Vec<DataFromNetif>,
}

/// The Ethernet ingress stage: it learns source addresses and passes the
/// frames that are for this host on to the stage of their type.
pub struct EthernetIn;

impl EthernetIn {
    pub fn new() -> (r: EthernetIn)
        ensures
            r == EthernetIn,
    {
        EthernetIn {  }
    }

    /// Takes the frames of `batch` first to last: learns the source of
    /// each, and sorts those that are for this host by their type.
    pub fn classify(&self, mac: &mut MacAddressTable, batch: Vec<DataFromNetif>) -> (bins: EthernetBins)
        requires
            forall|j: int| 0 <= j < batch@.len() ==> (#[trigger] batch@[j]).wf(),
        ensures
            final(mac)@ == ethernet_in_mac(old(mac)@, crate::net::frames_of(batch@)),
            crate::net::frames_of(bins.arp@) == ethernet_in_bin(
                old(mac)@,
                crate::net::frames_of(batch@),
                EtherClass::Arp,
            ),
            crate::net::frames_of(bins.ipv4@) == ethernet_in_bin(
                old(mac)@,
                crate::net::frames_of(batch@),
                EtherClass::Ipv4,
            ),
            crate::net::frames_of(bins.ipv6@) == ethernet_in_bin(
                old(mac)@,
                crate::net::frames_of(batch@),
                EtherClass::Ipv6,
            ),
            forall|j: int| 0 <= j < bins.arp@.len() ==> (#[trigger] bins.arp@[j]).wf(),
            forall|j: int| 0 <= j < bins.ipv4@.len() ==> (#[trigger] bins.ipv4@[j]).wf(),
            forall|j: int| 0 <= j < bins.ipv6@.len() ==> (#[trigger] bins.ipv6@[j]).wf(),
    {
        let ghost frames = crate::net::frames_of(batch@);
        let ghost mac0 = mac@;
        let mut arp_pkts: Vec<DataFromNetif> = Vec::new();
        let mut ipv4_pkts: Vec<DataFromNetif> = Vec::new();
        let mut ipv6_pkts: Vec<DataFromNetif> = Vec::new();
        let mut rest = reversed(batch);
        assert(frames.subrange(0, 0) =~= Seq::<FrameView>::empty());
        while rest.len() > 0
            invariant
                rest@.len() <= frames.len(),
                frames == crate::net::frames_of(batch@),
                forall|j: int| 0 <= j < batch@.len() ==> (#[trigger] batch@[j]).wf(),
                forall|j: int| 0 <= j < rest@.len() ==> #[trigger] rest@[j] == batch@[batch@.len() - 1 - j],
                mac@ == ethernet_in_mac(mac0, frames.subrange(0, frames.len() - rest@.len())),
                crate::net::frames_of(arp_pkts@) == ethernet_in_bin(
                    mac0,
                    frames.subrange(0, frames.len() - rest@.len()),
                    EtherClass::Arp,
                ),
                crate::net::frames_of(ipv4_pkts@) == ethernet_in_bin(
                    mac0,
                    frames.subrange(0, frames.len() - rest@.len()),
                    EtherClass::Ipv4,
                ),
                crate::net::frames_of(ipv6_pkts@) == ethernet_in_bin(
                    mac0,
                    frames.subrange(0, frames.len() - rest@.len()),
                    EtherClass::Ipv6,
                ),
                forall|j: int| 0 <= j < arp_pkts@.len() ==> (#[trigger] arp_pkts@[j]).wf(),
                forall|j: int| 0 <= j < ipv4_pkts@.len() ==> (#[trigger] ipv4_pkts@[j]).wf(),
                forall|j: int| 0 <= j < ipv6_pkts@.len() ==> (#[trigger] ipv6_pkts@[j]).wf(),
            decreases rest@.len(),
        {
            let ghost k = frames.len() - rest@.len();
            let ghost done = frames.subrange(0, k);
            let ghost arp0 = arp_pkts@;
            let ghost ipv4_0 = ipv4_pkts@;
            let ghost ipv6_0 = ipv6_pkts@;
            match rest.pop() {
                Some(frame) => {
                    proof {
                        assert(frame == batch@[k]);
                        assert(frames.subrange(0, k + 1).drop_last() =~= done);
                        assert(frames.subrange(0, k + 1).last() == frame.frame());
                    }
                    let class = self.learn_and_classify(mac, &frame);
                    match class {
                        Some(EtherClass::Arp) => {
                            arp_pkts.push(frame);
                            assert(crate::net::frames_of(arp_pkts@) =~= crate::net::frames_of(arp0).push(frame.frame()));
                        },
                        Some(EtherClass::Ipv4) => {
                            ipv4_pkts.push(frame);
                            assert(crate::net::frames_of(ipv4_pkts@) =~= crate::net::frames_of(ipv4_0).push(
                                frame.frame(),
                            ));
                        },
                        Some(EtherClass::Ipv6) => {
                            ipv6_pkts.push(frame);
                            assert(crate::net::frames_of(ipv6_pkts@) =~= crate::net::frames_of(ipv6_0).push(
                                frame.frame(),
                            ));
                        },
                        _ => {},
                    }
                },
                None => {},
            }
        }
        assert(frames.subrange(0, frames.len() as int) =~= frames);
        EthernetBins { arp: arp_pkts, ipv4: ipv4_pkts, ipv6: ipv6_pkts }
    }

    /// Learns the source of one frame and says which stage the frame goes
    /// on to, if any.
    pub fn learn_and_classify(&self, mac: &mut MacAddressTable, frame: &DataFromNetif) -> (r: Option<EtherClass>)
        requires
            frame.wf(),
        ensures
            final(mac)@ == ether_learn(old(mac)@, frame.frame()),
            r == (if ether_accepts(final(mac)@, frame@) {
                Some(ether_class_of(frame@[12], frame@[13]))
            } else {
                None
            }),
    {
        let slice = frame.get_buffer().slice();
        if slice.len() < ETHER_HEADER_LEN {
            return None;
        }
        let src = read_mac(slice, 6);
        register_macaddress(mac, src, frame.get_netif(), false, None);
        let broadcast: bool = slice[0] == 0xff && slice[1] == 0xff && slice[2] == 0xff && slice[3] == 0xff
            && slice[4] == 0xff && slice[5] == 0xff;
        let accepted: bool = if broadcast {
            true
        } else {
            let dest = read_mac(slice, 0);
            match mac.get(&dest) {
                Some(adj) => adj.is_local(),
                None => false,
            }
        };
        if !accepted {
            return None;
        }
        let t0: u8 = slice[12];
        let t1: u8 = slice[13];
        let class = if t0 == 0x08 && t1 == 0x06 {
            EtherClass::Arp
        } else if t0 == 0x08 && t1 == 0x00 {
            EtherClass::Ipv4
        } else if t0 == 0x86 && t1 == 0xdd {
            EtherClass::Ipv6
        } else {
            EtherClass::Other
        };
        Some(class)
    }
}

impl ProcessingNode for EthernetIn {
    fn process<N: Netif>(&self, tables: &mut ForwardingTables, netifs: &Vec<N>, batch: Vec<DataFromNetif>) -> (requests:
        Vec<TransmitRequest>)
        ensures
            final(tables)@ == ethernet_in_tables(old(tables)@, frames_of(batch@)),
            requests_of(requests@) == ethernet_in_requests(
                old(tables)@,
                interface_macs(netifs@),
                frames_of(batch@),
            ),
    {
        let ghost t0 = tables@;
        let ghost frames = frames_of(batch@);
        let ghost macs = interface_macs(netifs@);
        let bins = self.classify(&mut tables.mac, batch);
        let ghost t1 = tables@;
        assert(t1 == (ForwardingTablesView { mac: ethernet_in_mac(t0.mac, frames), ..t0 }));
        let mut requests: Vec<TransmitRequest> = Vec::new();
        let ghost arp_frames = frames_of(bins.arp@);
        let ghost ipv4_frames = frames_of(bins.ipv4@);
        let ghost ipv6_frames = frames_of(bins.ipv6@);
        if bins.arp.len() > 0 {
            let mut replies = ArpIn::new().process(tables, netifs, bins.arp);
            requests.append(&mut replies);
        }
        let ghost t2 = tables@;
        let ghost r1 = requests@;
        proof {
            assert(t2 == arp_in_tables(t1, arp_frames));
            assert(requests_of(r1) =~= arp_in_requests(t1, macs, arp_frames));
            assert(t2 == tables_after_arp(t0, frames));
        }
        if bins.ipv4.len() > 0 {
            let mut replies = Ipv4In::new().process(tables, netifs, bins.ipv4);
            let ghost added = replies@;
            requests.append(&mut replies);
            assert(requests_of(requests@) =~= requests_of(r1) + requests_of(added));
        }
        let ghost r2 = requests@;
        proof {
            assert(tables@ == t2);
            assert(requests_of(r2) =~= requests_of(r1) + echo4_requests(macs, ipv4_in_bin(t2, ipv4_frames)));
        }
        if bins.ipv6.len() > 0 {
            let mut replies = Ipv6In::new().process(tables, netifs, bins.ipv6);
            let ghost added = replies@;
            requests.append(&mut replies);
            assert(requests_of(requests@) =~= requests_of(r2) + requests_of(added));
        }
        proof {
            assert(tables@ == neighbor_tables(t2, ipv6_in_bin(t2, ipv6_frames)));
            assert(requests_of(requests@) =~= requests_of(r2) + echo6_requests(macs, ipv6_in_bin(t2, ipv6_frames)));
        }
        requests
    }
}

} // verus!
