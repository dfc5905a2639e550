//! The ARP stage: it learns the sender of every ARP packet and answers
//! requests for addresses of this host.

use vstd::prelude::*;
use crate::devices::netif::Netif;
use crate::net::{
    DataFromNetif, FrameView, ProcessingNode, RequestView, TransmitRequest, append, frames_of, interface_macs, requests_of,
    reversed,
};
use crate::net::ethernet::{MacAddress, ether_header, generate_ether_header, mac_at, read_mac};
use crate::net::fib::{
    AdjacentInformation, FIBType, ForwardInformationBaseIpv4, ForwardingTables, ForwardingTablesView, adjacency_after,
    lemma_ipv4_host_mask, register_ipv4_adjacent, register_ipv4_fib,
};
use crate::net::ipv4::{Ipv4Address, ipv4_at, lemma_ipv4_mask, read_ipv4};

verus! {

/// The length of an Ethernet frame that holds an ARP packet for IPv4.
pub const ARP_FRAME_LEN: usize = 42;

/// The operation of a request, as the two bytes of the packet read as one
/// integer with the first byte least significant.
pub const ARP_OPER_REQUEST: u16 = 0x0100;

/// The operation of a reply, in the same form.
pub const ARP_OPER_REPLY: u16 = 0x0200;

/// An ARP packet for IPv4 over Ethernet. The two bytes of the operation are
/// those of `oper`, least significant first.
pub open spec fn arp_packet(
    oper: u16,
    src_mac: MacAddress,
    src_ip: Ipv4Address,
    dest_mac: MacAddress,
    dest_ip: Ipv4Address,
) -> Seq<u8> {
    seq![0x00u8, 0x01u8, 0x08u8, 0x00u8, 6u8, 4u8, (oper & 0xff) as u8, (oper >> 8) as u8] + src_mac.octets()
        + src_ip.octets() + dest_mac.octets() + dest_ip.octets()
}

/// Writes an ARP packet to the first 28 bytes of `buffer`.
pub fn generate_arp_packet(
    buffer: &mut [u8],
    oper: u16,
    src_mac: MacAddress,
    src_ip: Ipv4Address,
    dest_mac: MacAddress,
    dest_ip: Ipv4Address,
)
    requires
        old(buffer)@.len() >= 28,
    ensures
        final(buffer)@ == arp_packet(oper, src_mac, src_ip, dest_mac, dest_ip) + old(buffer)@.subrange(
            28,
            old(buffer)@.len() as int,
        ),
{
    let sha = src_mac.get_array();
    let spa = src_ip.get_array();
    let tha = dest_mac.get_array();
    let tpa = dest_ip.get_array();
    buffer[0] = 0x00;
    buffer[1] = 0x01;
    buffer[2] = 0x08;
    buffer[3] = 0x00;
    buffer[4] = 6;
    buffer[5] = 4;
    buffer[6] = (oper & 0xff) as u8;
    buffer[7] = (oper >> 8) as u8;
    buffer[8] = sha[0];
    buffer[9] = sha[1];
    buffer[10] = sha[2];
    buffer[11] = sha[3];
    buffer[12] = sha[4];
    buffer[13] = sha[5];
    buffer[14] = spa[0];
    buffer[15] = spa[1];
    buffer[16] = spa[2];
    buffer[17] = spa[3];
    buffer[18] = tha[0];
    buffer[19] = tha[1];
    buffer[20] = tha[2];
    buffer[21] = tha[3];
    buffer[22] = tha[4];
    buffer[23] = tha[5];
    buffer[24] = tpa[0];
    buffer[25] = tpa[1];
    buffer[26] = tpa[2];
    buffer[27] = tpa[3];
    assert(buffer@ =~= arp_packet(oper, src_mac, src_ip, dest_mac, dest_ip) + old(buffer)@.subrange(
        28,
        old(buffer)@.len() as int,
    ));
}

/// The frame that answers a request: from `our_mac`, which has `our_ip`,
/// to the requester.
pub open spec fn arp_reply_frame(
    our_mac: MacAddress,
    our_ip: Ipv4Address,
    requester_mac: MacAddress,
    requester_ip: Ipv4Address,
) -> Seq<u8> {
    ether_header(our_mac, requester_mac, seq![0x08u8, 0x06u8]) + arp_packet(
        ARP_OPER_REPLY,
        our_mac,
        our_ip,
        requester_mac,
        requester_ip,
    )
}

/// The tables after an ARP packet was seen: its sender has a resolved host
/// route and a neighbour entry, on the interface of the frame. A frame too
/// short for an ARP packet teaches nothing.
pub open spec fn arp_learn(t: ForwardingTablesView, f: FrameView) -> ForwardingTablesView {
    if f.bytes.len() < 42 {
        t
    } else {
        let sha = mac_at(f.bytes, 22);
        let spa = ipv4_at(f.bytes, 28);
        ForwardingTablesView {
            ipv4_fib: t.ipv4_fib.update(
                32,
                t.ipv4_fib[32].insert(
                    spa.prim(),
                    ForwardInformationBaseIpv4 {
                        nexthop_macaddress: sha,
                        nexthop_address: spa,
                        netif: f.netif,
                        fib_type: FIBType::AdjacentResolved,
                    },
                ),
            ),
            ipv4_adjacent: adjacency_after(
                t.ipv4_adjacent,
                spa.prim(),
                AdjacentInformation { mac_address: sha, netif: f.netif, is_local: false, expire_time: None },
            ),
            ..t
        }
    }
}

/// The answer to an ARP packet, by the tables as they are when the packet
/// has been seen: a reply where the packet is a request for an address
/// that this host has on one of its interfaces, sent on that interface.
pub open spec fn arp_reply(t: ForwardingTablesView, macs: Seq<MacAddress>, f: FrameView) -> Option<RequestView> {
    let s = f.bytes;
    let tpa = ipv4_at(s, 38);
    if s.len() >= 42 && t.ipv4_adjacent.contains_key(tpa.prim()) && t.ipv4_adjacent[tpa.prim()].is_local && s[20]
        == 0x00 && s[21] == 0x01 && t.ipv4_adjacent[tpa.prim()].netif < macs.len() {
        let netif = t.ipv4_adjacent[tpa.prim()].netif;
        Some(
            RequestView {
                netif,
                bytes: arp_reply_frame(macs[netif as int], tpa, mac_at(s, 22), ipv4_at(s, 28)),
            },
        )
    } else {
        None
    }
}

/// The tables after all of `frames` were seen by the ARP stage.
pub open spec fn arp_in_tables(t: ForwardingTablesView, frames: Seq<FrameView>) -> ForwardingTablesView
    decreases frames.len(),
{
    if frames.len() == 0 {
        t
    } else {
        arp_learn(arp_in_tables(t, frames.drop_last()), frames.last())
    }
}

/// The replies of the ARP stage to `frames`, in their order.
pub open spec fn arp_in_requests(t: ForwardingTablesView, macs: Seq<MacAddress>, frames: Seq<FrameView>) -> Seq<
    RequestView,
>
    decreases frames.len(),
{
    if frames.len() == 0 {
        Seq::<RequestView>::empty()
    } else {
        let before = arp_in_requests(t, macs, frames.drop_last());
        match arp_reply(arp_in_tables(t, frames), macs, frames.last()) {
            Some(r) => before.push(r),
            None => before,
        }
    }
}

/// The ARP stage.
pub struct ArpIn;

impl ArpIn {
    pub fn new() -> (r: ArpIn)
        ensures
            r == ArpIn,
    {
        ArpIn {  }
    }

    /// Learns the sender of one ARP packet and answers it if it asks for
    /// an address of this host.
    pub fn process_frame<N: Netif>(&self, tables: &mut ForwardingTables, netifs: &Vec<N>, frame: &DataFromNetif) -> (r:
        Option<TransmitRequest>)
        requires
            old(tables).wf(),
            frame.wf(),
        ensures
            final(tables).wf(),
            final(tables)@ == arp_learn(old(tables)@, frame.frame()),
            match r {
                Some(request) => arp_reply(final(tables)@, interface_macs(netifs@), frame.frame()) == Some(request@),
                None => arp_reply(final(tables)@, interface_macs(netifs@), frame.frame()) is None,
            },
    {
        let slice = frame.get_buffer().slice();
        if slice.len() < ARP_FRAME_LEN {
            return None;
        }
        let src_mac = read_mac(slice, 22);
        let src_ip = read_ipv4(slice, 28);
        proof {
            lemma_ipv4_host_mask();
            lemma_ipv4_mask(src_ip.prim(), 32);
        }
        register_ipv4_fib(
            &mut tables.ipv4_fib,
            src_ip,
            0xffff_ffff,
            src_mac,
            src_ip,
            frame.get_netif(),
            FIBType::AdjacentResolved,
        );
        register_ipv4_adjacent(&mut tables.ipv4_adjacent, src_ip, src_mac, frame.get_netif(), false, None);
        let dest_ip = read_ipv4(slice, 38);
        let adj = match tables.ipv4_adjacent.get(&dest_ip) {
            Some(adj) => adj,
            None => {
                return None;
            },
        };
        if !adj.is_local() || slice[20] != 0x00 || slice[21] != 0x01 {
            return None;
        }
        let netif: usize = adj.get_netif();
        if netif >= netifs.len() {
            return None;
        }
        let our_mac: MacAddress = *netifs[netif].get_macaddress();
        let mut reply: Vec<u8> = vec![0u8; 14];
        generate_ether_header(reply.as_mut_slice(), our_mac, src_mac, [0x08, 0x06]);
        let mut packet: Vec<u8> = vec![0u8; 28];
        generate_arp_packet(packet.as_mut_slice(), ARP_OPER_REPLY, our_mac, dest_ip, src_mac, src_ip);
        append(&mut reply, packet.as_slice());
        assert(reply@ =~= arp_reply_frame(our_mac, dest_ip, src_mac, src_ip));
        Some(TransmitRequest { netif, frame: reply })
    }
}

impl ProcessingNode for ArpIn {
    fn process<N: Netif>(&self, tables: &mut ForwardingTables, netifs: &Vec<N>, batch: Vec<DataFromNetif>) -> (requests:
        Vec<TransmitRequest>)
        ensures
            final(tables)@ == arp_in_tables(old(tables)@, frames_of(batch@)),
            requests_of(requests@) == arp_in_requests(old(tables)@, interface_macs(netifs@), frames_of(batch@)),
    {
        let ghost frames = frames_of(batch@);
        let ghost t0 = tables@;
        let ghost macs = interface_macs(netifs@);
        let mut requests: Vec<TransmitRequest> = Vec::new();
        let mut rest = reversed(batch);
        assert(frames.subrange(0, 0) =~= Seq::<FrameView>::empty());
        assert(requests_of(requests@) =~= Seq::<RequestView>::empty());
        while rest.len() > 0
            invariant
                tables.wf(),
                rest@.len() <= frames.len(),
                frames == frames_of(batch@),
                macs == interface_macs(netifs@),
                forall|j: int| 0 <= j < batch@.len() ==> (#[trigger] batch@[j]).wf(),
                forall|j: int| 0 <= j < rest@.len() ==> #[trigger] rest@[j] == batch@[batch@.len() - 1 - j],
                tables@ == arp_in_tables(t0, frames.subrange(0, frames.len() - rest@.len())),
                requests_of(requests@) == arp_in_requests(t0, macs, frames.subrange(0, frames.len() - rest@.len())),
            decreases rest@.len(),
        {
            let ghost k = frames.len() - rest@.len();
            let ghost done = frames.subrange(0, k);
            let ghost before = requests@;
            match rest.pop() {
                Some(frame) => {
                    proof {
                        assert(frame == batch@[k]);
                        assert(frames.subrange(0, k + 1).drop_last() =~= done);
                        assert(frames.subrange(0, k + 1).last() == frame.frame());
                    }
                    match self.process_frame(tables, netifs, &frame) {
                        Some(request) => {
                            requests.push(request);
                            assert(requests_of(requests@) =~= requests_of(before).push(request@));
                        },
                        None => {},
                    }
                },
                None => {},
            }
        }
        assert(frames.subrange(0, frames.len() as int) =~= frames);
        requests
    }
}

} // verus!
