use std::cell::RefCell;
use std::rc::Rc;
use urchin::devices::buffer::Buffer;
use urchin::devices::netif::Netif;
use urchin::devices::virtio::mmio::{VirtioMMIO, VolatileMemory};
use urchin::devices::virtio::net::{serve_interface, serve_interface_causes, transmit_frames, VirtioNet};
use urchin::net::arp::{generate_arp_packet, ArpIn};
use urchin::net::ethernet::{generate_ether_header, EtherClass, EthernetIn, MacAddress};
use urchin::net::fib::{configure_interface, find_ipv4_fib, find_ipv6_fib, FIBType, ForwardingTables};
use urchin::net::ipv4::{generate_ipv4_header, Icmpv4InLocal, Ipv4Address, Ipv4In};
use urchin::net::ipv6::{generate_ipv6_header, Icmpv6InLocal, Ipv6Address, Ipv6In};
use urchin::net::{checksum, transmit, DataFromNetif, ProcessingNode, TransmitRequest};

const BASE: u64 = 0xd000_0000;

struct State {
    magic: u32,
    version: u32,
    device_type: u32,
    features: u64,
    features_sel: u32,
    status: u32,
    sticky_mask: u32,
    config: [u8; 6],
    queue_sizes: [u32; 3],
    selected: u32,
    isr: u32,
    writes: Vec<(u64, u32)>,
}

#[derive(Clone)]
struct FakeMemory {
    state: Rc<RefCell<State>>,
}

impl FakeMemory {
    fn new(features: u64, queue_sizes: [u32; 3]) -> FakeMemory {
        FakeMemory {
            state: Rc::new(RefCell::new(State {
                magic: 0x7472_6976,
                version: 2,
                device_type: 1,
                features,
                features_sel: 0,
                status: 0,
                sticky_mask: 0xff,
                config: [0x52, 0x54, 0x00, 0x12, 0x34, 0x56],
                queue_sizes,
                selected: 0,
                isr: 0,
                writes: Vec::new(),
            })),
        }
    }

    fn raise(&self) {
        self.state.borrow_mut().isr = 1;
    }
}

impl VolatileMemory for FakeMemory {
    fn read_u32(&self, addr: u64) -> u32 {
        let s = self.state.borrow();
        match addr - BASE {
            0x000 => s.magic,
            0x004 => s.version,
            0x008 => s.device_type,
            0x010 => {
                if s.features_sel == 1 {
                    (s.features >> 32) as u32
                } else {
                    s.features as u32
                }
            },
            0x034 => s.queue_sizes[s.selected as usize],
            0x044 => 0,
            0x060 => s.isr,
            0x070 => s.status,
            _ => 0,
        }
    }

    fn write_u32(&mut self, addr: u64, value: u32) {
        let mut s = self.state.borrow_mut();
        let offset = addr - BASE;
        s.writes.push((offset, value));
        match offset {
            0x014 => s.features_sel = value,
            0x030 => s.selected = value,
            0x064 => s.isr = s.isr & !value,
            0x070 => s.status = value & s.sticky_mask,
            _ => {},
        }
    }

    fn read_u8(&self, addr: u64) -> u8 {
        self.state.borrow().config[(addr - BASE - 0x100) as usize]
    }
}

type Net = VirtioNet<VirtioMMIO<FakeMemory>>;

const M0: [u8; 6] = [0x52, 0x54, 0x00, 0x12, 0x34, 0x56];
const PEER: [u8; 6] = [0x02, 0xaa, 0xaa, 0xaa, 0xaa, 0x01];
const LLA: [u8; 16] = [0xfe, 0x80, 0, 0, 0, 0, 0, 0, 0x52, 0x54, 0x00, 0xff, 0xfe, 0x12, 0x34, 0x56];
const PEER6: [u8; 16] = [0xfe, 0x80, 0, 0, 0, 0, 0, 0, 0, 0, 0, 0, 0, 0, 0, 0x99];

fn interface(id: usize) -> (FakeMemory, Net) {
    let memory = FakeMemory::new(0x20, [8, 8, 8]);
    let dev = VirtioMMIO::new("virtio_mmio.device=4k@0xd0000000:5", 0, memory.clone()).ok().unwrap();
    let net = VirtioNet::new(id, dev, 0).unwrap();
    (memory, net)
}

fn finish(net: &mut VirtioNet<VirtioMMIO<FakeMemory>>, queue: u32, written: &[u8]) -> bool {
    let id = match net.get_queue(queue) {
        Some(q) => (q.get_used_idx() & (q.get_size() - 1)) as u32,
        None => 0,
    };
    net.complete(queue, id, written)
}

fn host() -> (FakeMemory, Vec<Net>, ForwardingTables) {
    let (memory, net) = interface(0);
    let mut tables = ForwardingTables::new();
    configure_interface(&mut tables, 0, *net.get_macaddress(), Ipv4Address::from_array([192, 168, 0, 10]), 24);
    (memory, vec![net], tables)
}

fn received(netif: usize, frame: &[u8]) -> DataFromNetif {
    let mut b = Buffer::new(4096, 4096).ok().unwrap();
    b.write(0, frame);
    DataFromNetif::new(netif, b)
}

fn ones_sum(bytes: &[u8], initial: u32) -> u16 {
    let mut sum: u32 = initial;
    let mut i = 0;
    while i < bytes.len() {
        let hi = bytes[i] as u32;
        let lo = if i + 1 < bytes.len() { bytes[i + 1] as u32 } else { 0 };
        sum += (hi << 8) | lo;
        i += 2;
    }
    while sum > 0xffff {
        sum = (sum & 0xffff) + (sum >> 16);
    }
    sum as u16
}

fn arp_request(dest: [u8; 6], oper: [u8; 2], spa: [u8; 4], tpa: [u8; 4]) -> Vec<u8> {
    let mut f = Vec::new();
    f.extend_from_slice(&dest);
    f.extend_from_slice(&PEER);
    f.extend_from_slice(&[0x08, 0x06, 0x00, 0x01, 0x08, 0x00, 6, 4]);
    f.extend_from_slice(&oper);
    f.extend_from_slice(&PEER);
    f.extend_from_slice(&spa);
    f.extend_from_slice(&[0; 6]);
    f.extend_from_slice(&tpa);
    f
}

fn echo4_request(dest_ip: [u8; 4], version_ihl: u8, payload: &[u8]) -> Vec<u8> {
    let total = 20 + 8 + payload.len();
    let mut f = Vec::new();
    f.extend_from_slice(&M0);
    f.extend_from_slice(&PEER);
    f.extend_from_slice(&[0x08, 0x00]);
    let mut ip = vec![version_ihl, 0, (total >> 8) as u8, total as u8, 0x12, 0x34, 0, 0, 0x40, 0x01, 0, 0];
    ip.extend_from_slice(&[192, 168, 0, 99]);
    ip.extend_from_slice(&dest_ip);
    let c = !ones_sum(&ip, 0);
    ip[10] = (c >> 8) as u8;
    ip[11] = c as u8;
    f.extend_from_slice(&ip);
    let mut icmp = vec![0x08, 0x00, 0, 0, 0x12, 0x34, 0x00, 0x01];
    icmp.extend_from_slice(payload);
    let c = !ones_sum(&icmp, 0);
    icmp[2] = (c >> 8) as u8;
    icmp[3] = c as u8;
    f.extend_from_slice(&icmp);
    f
}

fn pseudo_sum(src: &[u8], dst: &[u8], len: usize) -> u32 {
    ones_sum(src, 0) as u32 + ones_sum(dst, 0) as u32 + len as u32 + 58
}

fn icmp6(kind: u8, dest: [u8; 16], body: &[u8]) -> Vec<u8> {
    let len = 4 + body.len();
    let mut f = Vec::new();
    f.extend_from_slice(&M0);
    f.extend_from_slice(&PEER);
    f.extend_from_slice(&[0x86, 0xdd, 0x60, 0, 0, 0, (len >> 8) as u8, len as u8, 58, 64]);
    f.extend_from_slice(&PEER6);
    f.extend_from_slice(&dest);
    let mut m = vec![kind, 0, 0, 0];
    m.extend_from_slice(body);
    let c = !ones_sum(&m, pseudo_sum(&PEER6, &dest, len));
    m[2] = (c >> 8) as u8;
    m[3] = c as u8;
    f.extend_from_slice(&m);
    f
}

#[test]
fn an_arp_request_for_a_local_address_is_answered() {
    let (_, netifs, mut tables) = host();
    let frame = arp_request([0xff; 6], [0x00, 0x01], [192, 168, 0, 99], [192, 168, 0, 10]);
    assert_eq!(frame.len(), 42);
    let requests = EthernetIn::new().process(&mut tables, &netifs, vec![received(0, &frame)]);
    assert_eq!(requests.len(), 1);
    assert_eq!(requests[0].netif, 0);
    let mut expected = Vec::new();
    expected.extend_from_slice(&PEER);
    expected.extend_from_slice(&M0);
    expected.extend_from_slice(&[0x08, 0x06, 0x00, 0x01, 0x08, 0x00, 6, 4, 0x00, 0x02]);
    expected.extend_from_slice(&M0);
    expected.extend_from_slice(&[192, 168, 0, 10]);
    expected.extend_from_slice(&PEER);
    expected.extend_from_slice(&[192, 168, 0, 99]);
    assert_eq!(requests[0].frame, expected);
    let route = find_ipv4_fib(&tables.ipv4_fib, &Ipv4Address::from_array([192, 168, 0, 99]), 0xffff_ffff).unwrap();
    assert_eq!(route.get_fib_type(), FIBType::AdjacentResolved);
    assert_eq!(route.get_netif(), 0);
    assert_eq!(route.get_nexthop_macaddress(), MacAddress::new(PEER));
    assert_eq!(route.get_nexthop_address(), Ipv4Address::from_array([192, 168, 0, 99]));
    let adj = tables.ipv4_adjacent.get(&Ipv4Address::from_array([192, 168, 0, 99])).unwrap();
    assert_eq!(adj.get_macaddress(), MacAddress::new(PEER));
    assert!(!adj.is_local());
    let learned = tables.mac.get(&MacAddress::new(PEER)).unwrap();
    assert!(!learned.is_local());
    assert_eq!(learned.get_netif(), 0);
}

#[test]
fn arp_learns_but_is_silent_on_replies_and_foreign_targets() {
    let (_, netifs, mut tables) = host();
    let reply = arp_request([0xff; 6], [0x00, 0x02], [192, 168, 0, 98], [192, 168, 0, 10]);
    let foreign = arp_request([0xff; 6], [0x00, 0x01], [192, 168, 0, 97], [192, 168, 0, 11]);
    let odd = arp_request([0xff; 6], [0x00, 0x09], [192, 168, 0, 96], [192, 168, 0, 10]);
    let batch = vec![received(0, &reply), received(0, &foreign), received(0, &odd)];
    let requests = ArpIn::new().process(&mut tables, &netifs, batch);
    assert!(requests.is_empty());
    let mut last = 96;
    while last <= 98 {
        let ip = Ipv4Address::from_array([192, 168, 0, last]);
        assert_eq!(find_ipv4_fib(&tables.ipv4_fib, &ip, 0xffff_ffff).unwrap().get_fib_type(), FIBType::AdjacentResolved);
        assert!(tables.ipv4_adjacent.get(&ip).is_some());
        last += 1;
    }
    let short = &reply[..41];
    assert!(ArpIn::new().process_frame(&mut tables, &netifs, &received(0, short)).is_none());
}

#[test]
fn an_echo_request_is_answered() {
    let (_, netifs, mut tables) = host();
    let frame = echo4_request([192, 168, 0, 10], 0x45, &[]);
    assert_eq!(frame.len(), 42);
    let requests = EthernetIn::new().process(&mut tables, &netifs, vec![received(0, &frame)]);
    assert_eq!(requests.len(), 1);
    let r = &requests[0].frame;
    assert_eq!(requests[0].netif, 0);
    assert_eq!(r.len(), 42);
    assert_eq!(&r[0..6], &PEER);
    assert_eq!(&r[6..12], &M0);
    assert_eq!(&r[12..14], &[0x08, 0x00]);
    assert_eq!(&r[14..24], &[0x45, 0x00, 0x00, 28, 0x00, 0x00, 0x40, 0x00, 64, 0x01]);
    assert_eq!(&r[26..30], &[192, 168, 0, 10]);
    assert_eq!(&r[30..34], &[192, 168, 0, 99]);
    assert_eq!(&r[34..36], &[0x00, 0x00]);
    assert_eq!(&r[38..42], &[0x12, 0x34, 0x00, 0x01]);
    assert_eq!(ones_sum(&r[14..34], 0), 0xffff);
    assert_eq!(ones_sum(&r[34..], 0), 0xffff);
    assert_eq!(&r[36..38], &[0xed, 0xca]);
}

#[test]
fn an_echo_reply_carries_the_body_of_the_request() {
    let (_, netifs, mut tables) = host();
    let mut sizes = vec![1usize, 2, 3, 56, 57, 1000, 1472];
    while let Some(n) = sizes.pop() {
        let body: Vec<u8> = (0..n).map(|i| (i * 7 + 3) as u8).collect();
        let frame = echo4_request([192, 168, 0, 10], 0x45, &body);
        let requests = EthernetIn::new().process(&mut tables, &netifs, vec![received(0, &frame)]);
        assert_eq!(requests.len(), 1);
        let r = &requests[0].frame;
        assert_eq!(r.len(), frame.len());
        assert_eq!(&r[42..], &body[..]);
        assert_eq!(&r[16..18], &frame[16..18]);
        assert_eq!(ones_sum(&r[14..34], 0), 0xffff);
        assert_eq!(ones_sum(&r[34..], 0), 0xffff);
    }
}

#[test]
fn an_echo_request_with_options_is_answered_without_them() {
    let (_, netifs, _) = host();
    let plain = echo4_request([192, 168, 0, 10], 0x45, &[1, 2, 3, 4]);
    let mut frame = plain[..34].to_vec();
    frame[14] = 0x46;
    frame[17] = 36;
    frame.extend_from_slice(&[1, 1, 1, 0]);
    frame.extend_from_slice(&plain[34..]);
    let request = Icmpv4InLocal::new().process_frame(&netifs, &received(0, &frame)).unwrap();
    let r = request.frame;
    assert_eq!(r.len(), 46);
    assert_eq!(r[14], 0x45);
    assert_eq!(&r[16..18], &[0, 32]);
    assert_eq!(&r[38..46], &[0x12, 0x34, 0x00, 0x01, 1, 2, 3, 4]);
    assert_eq!(ones_sum(&r[14..34], 0), 0xffff);
    assert_eq!(ones_sum(&r[34..], 0), 0xffff);
}

#[test]
fn nothing_is_sent_without_a_route() {
    let (_, netifs, mut tables) = host();
    let frame = echo4_request([10, 0, 0, 1], 0x45, &[]);
    let requests = EthernetIn::new().process(&mut tables, &netifs, vec![received(0, &frame)]);
    assert!(requests.is_empty());
    let learned = tables.mac.get(&MacAddress::new(PEER)).unwrap();
    assert!(!learned.is_local());
    assert_eq!(learned.get_netif(), 0);
    assert_eq!(learned.get_expire_time(), None);
}

#[test]
fn a_packet_of_another_version_is_dropped() {
    let (_, netifs, mut tables) = host();
    let frame = echo4_request([192, 168, 0, 10], 0x65, &[]);
    assert!(!Ipv4In::new().passes(&tables, &received(0, &frame)));
    let requests = EthernetIn::new().process(&mut tables, &netifs, vec![received(0, &frame)]);
    assert!(requests.is_empty());
    assert!(tables.mac.get(&MacAddress::new(PEER)).is_some());
}

#[test]
fn what_the_host_does_not_answer() {
    let (_, netifs, mut tables) = host();
    let mut other_proto = echo4_request([192, 168, 0, 10], 0x45, &[]);
    other_proto[23] = 17;
    let adjacent = echo4_request([192, 168, 0, 11], 0x45, &[]);
    let mut echo_reply = echo4_request([192, 168, 0, 10], 0x45, &[]);
    echo_reply[34] = 0;
    let mut truncated = echo4_request([192, 168, 0, 10], 0x45, &[]);
    truncated[17] = 27;
    let mut overlong = echo4_request([192, 168, 0, 10], 0x45, &[]);
    overlong[16] = 0xff;
    let mut short_header = echo4_request([192, 168, 0, 10], 0x44, &[]);
    short_header[14] = 0x44;
    let mut to_other_mac = echo4_request([192, 168, 0, 10], 0x45, &[]);
    to_other_mac[5] = 0x57;
    let mut vlan = echo4_request([192, 168, 0, 10], 0x45, &[]);
    vlan[12] = 0x81;
    let batch = vec![
        received(0, &other_proto),
        received(0, &adjacent),
        received(0, &echo_reply),
        received(0, &truncated),
        received(0, &overlong),
        received(0, &short_header),
        received(0, &to_other_mac),
        received(0, &vlan),
        received(0, &[0xff; 13]),
        received(9, &echo4_request([192, 168, 0, 10], 0x45, &[])),
    ];
    let requests = EthernetIn::new().process(&mut tables, &netifs, batch);
    assert!(requests.is_empty());
}

#[test]
fn the_ethernet_stage_sorts_by_type() {
    let (_, _, mut tables) = host();
    let stage = EthernetIn::new();
    let arp = arp_request([0xff; 6], [0x00, 0x01], [192, 168, 0, 99], [192, 168, 0, 10]);
    let v4 = echo4_request([192, 168, 0, 10], 0x45, &[]);
    let v6 = icmp6(0x80, LLA, &[0, 1, 0, 2]);
    let mut foreign = v4.clone();
    foreign[0] = 0x02;
    let mut unknown = v4.clone();
    unknown[13] = 0x01;
    assert_eq!(stage.learn_and_classify(&mut tables.mac, &received(0, &arp)), Some(EtherClass::Arp));
    assert_eq!(stage.learn_and_classify(&mut tables.mac, &received(0, &v4)), Some(EtherClass::Ipv4));
    assert_eq!(stage.learn_and_classify(&mut tables.mac, &received(0, &v6)), Some(EtherClass::Ipv6));
    assert_eq!(stage.learn_and_classify(&mut tables.mac, &received(0, &unknown)), Some(EtherClass::Other));
    assert_eq!(stage.learn_and_classify(&mut tables.mac, &received(0, &foreign)), None);
    let mut to_peer = v4.clone();
    to_peer[..6].copy_from_slice(&PEER);
    assert_eq!(stage.learn_and_classify(&mut tables.mac, &received(0, &to_peer)), None);
    let bins = stage.classify(
        &mut tables.mac,
        vec![received(0, &v6), received(0, &arp), received(0, &foreign), received(1, &v4), received(0, &v4)],
    );
    assert_eq!(bins.arp.len(), 1);
    assert_eq!(bins.ipv4.len(), 2);
    assert_eq!(bins.ipv6.len(), 1);
    assert_eq!(bins.ipv4[0].get_netif(), 1);
    assert_eq!(bins.ipv4[1].get_netif(), 0);
}

#[test]
fn replies_come_by_stage_and_then_in_the_order_of_arrival() {
    let (_, netifs, mut tables) = host();
    let arp = arp_request([0xff; 6], [0x00, 0x01], [192, 168, 0, 99], [192, 168, 0, 10]);
    let first = echo4_request([192, 168, 0, 10], 0x45, &[1]);
    let second = echo4_request([192, 168, 0, 10], 0x45, &[2, 2]);
    let v6 = icmp6(0x80, LLA, &[0, 1, 0, 2]);
    let batch = vec![received(0, &v6), received(0, &first), received(0, &arp), received(0, &second)];
    let requests = EthernetIn::new().process(&mut tables, &netifs, batch);
    assert_eq!(requests.len(), 4);
    assert_eq!(&requests[0].frame[12..14], &[0x08, 0x06]);
    assert_eq!(requests[1].frame.len(), 43);
    assert_eq!(requests[2].frame.len(), 44);
    assert_eq!(&requests[3].frame[12..14], &[0x86, 0xdd]);
}

#[test]
fn an_ipv6_echo_request_to_the_link_local_address_is_answered() {
    let (_, netifs, mut tables) = host();
    let body = [0x43, 0x21, 0x00, 0x07, 0xaa, 0xbb, 0xcc];
    let frame = icmp6(0x80, LLA, &body);
    let requests = EthernetIn::new().process(&mut tables, &netifs, vec![received(0, &frame)]);
    assert_eq!(requests.len(), 1);
    let r = &requests[0].frame;
    assert_eq!(requests[0].netif, 0);
    assert_eq!(r.len(), frame.len());
    assert_eq!(&r[0..6], &PEER);
    assert_eq!(&r[6..12], &M0);
    assert_eq!(&r[12..22], &[0x86, 0xdd, 0x60, 0, 0, 0, 0, 11, 58, 0x80]);
    assert_eq!(&r[22..38], &LLA);
    assert_eq!(&r[38..54], &PEER6);
    assert_eq!(r[54], 0x81);
    assert_eq!(r[55], 0x00);
    assert_eq!(&r[58..], &body);
    assert_eq!(ones_sum(&r[54..], pseudo_sum(&r[22..38], &r[38..54], 11)), 0xffff);
}

#[test]
fn ipv6_packets_that_are_not_answered() {
    let (_, netifs, mut tables) = host();
    let mut other_version = icmp6(0x80, LLA, &[0, 1, 0, 2]);
    other_version[14] = 0x40;
    let mut other_header = icmp6(0x80, LLA, &[0, 1, 0, 2]);
    other_header[20] = 17;
    let mut elsewhere = LLA;
    elsewhere[15] = 0x57;
    let foreign = icmp6(0x80, elsewhere, &[0, 1, 0, 2]);
    let mut short = icmp6(0x80, LLA, &[0, 1, 0]);
    short[19] = 7;
    let mut overlong = icmp6(0x80, LLA, &[0, 1, 0, 2]);
    overlong[18] = 0xff;
    let reply = icmp6(0x81, LLA, &[0, 1, 0, 2]);
    assert!(!Ipv6In::new().passes(&tables, &received(0, &other_version)));
    assert!(!Ipv6In::new().passes(&tables, &received(0, &other_header)));
    assert!(!Ipv6In::new().passes(&tables, &received(0, &foreign)));
    assert!(Ipv6In::new().passes(&tables, &received(0, &reply)));
    let batch = vec![
        received(0, &other_version),
        received(0, &other_header),
        received(0, &foreign),
        received(0, &short),
        received(0, &overlong),
        received(0, &reply),
    ];
    let requests = EthernetIn::new().process(&mut tables, &netifs, batch);
    assert!(requests.is_empty());
}

#[test]
fn a_neighbour_is_learned_from_its_advertisement() {
    let (_, netifs, mut tables) = host();
    let mut target = PEER6;
    target[15] = 0x42;
    let mut body = vec![0x60, 0, 0, 0];
    body.extend_from_slice(&target);
    body.extend_from_slice(&[1, 1, 9, 9, 9, 9, 9, 9]);
    body.extend_from_slice(&[2, 1, 0x02, 0xbb, 0xbb, 0xbb, 0xbb, 0x42]);
    let frame = icmp6(0x88, LLA, &body);
    let requests = EthernetIn::new().process(&mut tables, &netifs, vec![received(0, &frame)]);
    assert!(requests.is_empty());
    let neighbour = Ipv6Address::from_array(target);
    let mac = MacAddress::new([0x02, 0xbb, 0xbb, 0xbb, 0xbb, 0x42]);
    let route = find_ipv6_fib(&tables.ipv6_fib, &neighbour, 128).unwrap();
    assert_eq!(route.get_fib_type(), FIBType::AdjacentResolved);
    assert_eq!(route.get_nexthop_macaddress(), mac);
    assert_eq!(route.get_nexthop_address(), neighbour);
    assert_eq!(route.get_netif(), 0);
    let adj = tables.ipv6_adjacent.get(&neighbour).unwrap();
    assert_eq!(adj.get_macaddress(), mac);
    assert!(!adj.is_local());
    assert_eq!(adj.get_expire_time(), None);
}

#[test]
fn an_advertisement_without_a_link_layer_address_teaches_nothing() {
    let (_, netifs, mut tables) = host();
    let mut target = PEER6;
    target[15] = 0x43;
    let neighbour = Ipv6Address::from_array(target);
    let mut bare = vec![0x60, 0, 0, 0];
    bare.extend_from_slice(&target);
    let mut zero_length = bare.clone();
    zero_length.extend_from_slice(&[2, 0, 1, 2, 3, 4, 5, 6]);
    let mut cut = bare.clone();
    cut.extend_from_slice(&[2, 2, 1, 2, 3, 4, 5, 6]);
    let mut other = bare.clone();
    other.extend_from_slice(&[1, 1, 1, 2, 3, 4, 5, 6]);
    let batch = vec![
        received(0, &icmp6(0x88, LLA, &bare)),
        received(0, &icmp6(0x88, LLA, &zero_length)),
        received(0, &icmp6(0x88, LLA, &cut)),
        received(0, &icmp6(0x88, LLA, &other)),
    ];
    let requests = Icmpv6InLocal::new().process(&mut tables, &netifs, batch);
    assert!(requests.is_empty());
    assert!(find_ipv6_fib(&tables.ipv6_fib, &neighbour, 128).is_none());
    assert!(tables.ipv6_adjacent.get(&neighbour).is_none());
    let slice = [9u8, 9, 1, 1, 0, 0, 0, 0, 0, 0, 2, 1, 1, 2, 3, 4, 5, 6, 7];
    let found = Icmpv6InLocal::find_target_link_address(&slice, 2, 18).unwrap();
    assert_eq!(found.get_array(), [1, 2, 3, 4, 5, 6]);
    assert!(Icmpv6InLocal::find_target_link_address(&slice, 2, 17).is_none());
    assert!(Icmpv6InLocal::find_target_link_address(&slice, 2, 10).is_none());
}

#[test]
fn headers_are_written_in_place() {
    let mut buffer = [0xeeu8; 16];
    generate_ether_header(&mut buffer, MacAddress::new(M0), MacAddress::new(PEER), [0x08, 0x06]);
    assert_eq!(&buffer[0..6], &PEER);
    assert_eq!(&buffer[6..12], &M0);
    assert_eq!(&buffer[12..], &[0x08, 0x06, 0xee, 0xee]);
    let mut arp = [0xeeu8; 29];
    generate_arp_packet(
        &mut arp,
        0x0200,
        MacAddress::new(M0),
        Ipv4Address::from_array([1, 2, 3, 4]),
        MacAddress::new(PEER),
        Ipv4Address::from_array([5, 6, 7, 8]),
    );
    assert_eq!(&arp[..8], &[0, 1, 8, 0, 6, 4, 0, 2]);
    assert_eq!(&arp[8..14], &M0);
    assert_eq!(&arp[14..18], &[1, 2, 3, 4]);
    assert_eq!(&arp[18..24], &PEER);
    assert_eq!(&arp[24..], &[5, 6, 7, 8, 0xee]);
    let mut v4 = [0xeeu8; 21];
    generate_ipv4_header(
        &mut v4,
        [0x01, 0x02],
        17,
        Ipv4Address::from_array([1, 2, 3, 4]),
        Ipv4Address::from_array([5, 6, 7, 8]),
    );
    assert_eq!(v4, [0x45, 0, 1, 2, 0, 0, 0x40, 0, 64, 17, 0, 0, 1, 2, 3, 4, 5, 6, 7, 8, 0xee]);
    let mut v6 = [0xeeu8; 41];
    generate_ipv6_header(&mut v6, [0x01, 0x02], 58, Ipv6Address::from_array(LLA), Ipv6Address::from_array(PEER6));
    assert_eq!(&v6[..8], &[0x60, 0, 0, 0, 1, 2, 58, 0x80]);
    assert_eq!(&v6[8..24], &LLA);
    assert_eq!(&v6[24..40], &PEER6);
    assert_eq!(v6[40], 0xee);
}

#[test]
fn the_internet_checksum_of_a_known_example() {
    assert_eq!(checksum(0, &[0x00, 0x01, 0xf2, 0x03, 0xf4, 0xf5, 0xf6, 0xf7]), 0x220d);
    assert_eq!(checksum(0, &[]), 0xffff);
    assert_eq!(checksum(0, &[0xff, 0xff]), 0x0000);
    assert_eq!(checksum(0, &[0x12]), !0x1200u16);
    assert_eq!(checksum(0x1_0000, &[]), !0x0001u16);
    assert_eq!(checksum(0xffff, &[0x00, 0x01]), !0x0001u16);
    assert_eq!(checksum(0, &[0xff; 65536]), 0x0000);
}

#[test]
fn frames_are_sent_on_their_interface() {
    let (m0, n0) = interface(0);
    let (m1, n1) = interface(1);
    let mut netifs = vec![n0, n1];
    let requests = vec![
        TransmitRequest { netif: 1, frame: vec![1, 2, 3] },
        TransmitRequest { netif: 7, frame: vec![4] },
        TransmitRequest { netif: 0, frame: vec![5, 6] },
        TransmitRequest { netif: 1, frame: vec![7] },
    ];
    let w0 = m0.state.borrow().writes.len();
    let w1 = m1.state.borrow().writes.len();
    let outcome = transmit(&mut netifs, requests);
    assert_eq!(outcome, vec![true, false, true, true]);
    assert_eq!(m0.state.borrow().writes[w0..], [(0x050, 1)]);
    assert_eq!(m1.state.borrow().writes[w1..], [(0x050, 1), (0x050, 1)]);
    let tx1 = netifs[1].get_queue(1).unwrap();
    assert_eq!(tx1.get_avail_idx(), 2);
    assert_eq!(tx1.get_descriptor(0).unwrap().len, 15);
    assert_eq!(tx1.get_descriptor(1).unwrap().len, 13);
    assert_eq!(&tx1.get_buffer(0).unwrap().slice()[..3], &[1, 2, 3]);
    assert_eq!(tx1.get_buffer(1).unwrap().slice()[0], 7);
    assert_eq!(tx1.get_buffer(0).unwrap().get_position(), 12);
    let tx0 = netifs[0].get_queue(1).unwrap();
    assert_eq!(&tx0.get_buffer(0).unwrap().slice()[..2], &[5, 6]);
}

#[test]
fn an_interrupt_is_served_from_the_device_to_the_device() {
    let (memory, mut netifs, mut tables) = host();
    let frame = arp_request([0xff; 6], [0x00, 0x01], [192, 168, 0, 99], [192, 168, 0, 10]);
    let mut wire = vec![0u8; 12];
    wire.extend_from_slice(&frame);
    assert!(finish(&mut netifs[0], 0, &wire));
    let echo = echo4_request([192, 168, 0, 10], 0x45, &[0x55; 8]);
    let mut wire = vec![0u8; 12];
    wire.extend_from_slice(&echo);
    assert!(finish(&mut netifs[0], 0, &wire));
    let before = memory.state.borrow().writes.len();
    let idle = serve_interface(&mut netifs, 0, &mut tables);
    assert!(idle.is_empty());
    assert_eq!(netifs[0].get_queue(1).unwrap().get_avail_idx(), 0);
    memory.raise();
    let outcome = serve_interface(&mut netifs, 0, &mut tables);
    assert_eq!(outcome, vec![true, true]);
    assert_eq!(memory.state.borrow().writes[before..], [(0x064, 0), (0x064, 1), (0x050, 1), (0x050, 1)]);
    let tx = netifs[0].get_queue(1).unwrap();
    assert_eq!(tx.get_avail_idx(), 2);
    let first = tx.get_buffer(0).unwrap();
    assert_eq!(first.get_size(), 12 + 42);
    assert_eq!(&first.slice()[..6], &PEER);
    assert_eq!(&first.slice()[12..14], &[0x08, 0x06]);
    assert_eq!(&first.slice()[20..22], &[0x00, 0x02]);
    let second = tx.get_buffer(1).unwrap();
    assert_eq!(second.get_size(), 12 + 50);
    assert_eq!(second.slice()[34], 0x00);
    assert_eq!(&second.slice()[42..50], &[0x55; 8]);
    assert_eq!(tx.get_descriptor(1).unwrap().len, 62);
    assert_eq!(tx.get_descriptor(1).unwrap().flags, 0);
    assert_eq!(netifs[0].get_queue(0).unwrap().get_last_used_idx(), 2);
    assert!(tables.mac.get(&MacAddress::new(PEER)).is_some());
}

#[test]
fn the_driver_sends_frames_and_tells_each_device() {
    let (m0, n0) = interface(0);
    let (m1, n1) = interface(1);
    let mut netifs = vec![n0, n1];
    let requests = vec![
        TransmitRequest { netif: 1, frame: vec![1, 2, 3] },
        TransmitRequest { netif: 2, frame: vec![4] },
        TransmitRequest { netif: 0, frame: vec![5, 6] },
        TransmitRequest { netif: 1, frame: vec![7] },
    ];
    let w0 = m0.state.borrow().writes.len();
    let w1 = m1.state.borrow().writes.len();
    let rx0 = netifs[0].get_queue(0).unwrap().get_avail_idx();
    let outcome = transmit_frames(&mut netifs, requests);
    assert_eq!(outcome, vec![true, false, true, true]);
    assert_eq!(m0.state.borrow().writes[w0..], [(0x050, 1)]);
    assert_eq!(m1.state.borrow().writes[w1..], [(0x050, 1), (0x050, 1)]);
    assert_eq!(netifs[0].get_queue(0).unwrap().get_avail_idx(), rx0);
    assert_eq!(netifs[0].get_queue(2).unwrap().get_avail_idx(), 0);
    let tx1 = netifs[1].get_queue(1).unwrap();
    assert_eq!(tx1.get_avail_idx(), 2);
    assert_eq!(&tx1.get_buffer(0).unwrap().slice()[..3], &[1, 2, 3]);
    assert_eq!(tx1.get_buffer(1).unwrap().slice()[0], 7);
    assert_eq!(transmit_frames(&mut netifs, Vec::new()), Vec::<bool>::new());
    assert_eq!(m1.state.borrow().writes.len(), w1 + 2);
}

#[test]
fn a_full_transmit_queue_takes_no_more_frames() {
    let (memory, net) = interface(0);
    let mut netifs = vec![net];
    let mut requests = Vec::new();
    for i in 0..10u8 {
        requests.push(TransmitRequest { netif: 0, frame: vec![i; 4] });
    }
    let before = memory.state.borrow().writes.len();
    let outcome = transmit_frames(&mut netifs, requests);
    assert_eq!(outcome, vec![true, true, true, true, true, true, true, true, false, false]);
    assert_eq!(memory.state.borrow().writes.len(), before + 8);
    assert_eq!(netifs[0].get_queue(1).unwrap().get_avail_idx(), 8);
    assert!(finish(&mut netifs[0], 1, &[]));
    let again = transmit_frames(
        &mut netifs,
        vec![TransmitRequest { netif: 0, frame: vec![0xaa] }, TransmitRequest { netif: 0, frame: vec![0xbb] }],
    );
    assert_eq!(again, vec![true, false]);
    assert_eq!(netifs[0].get_queue(1).unwrap().get_avail_idx(), 9);
    assert_eq!(netifs[0].get_queue(1).unwrap().get_buffer(0).unwrap().slice()[0], 0xaa);
}

#[test]
fn the_causes_of_an_interface_decide_its_service() {
    let (memory, mut netifs, mut tables) = host();
    let frame = arp_request([0xff; 6], [0x00, 0x01], [192, 168, 0, 99], [192, 168, 0, 10]);
    let mut wire = vec![0u8; 12];
    wire.extend_from_slice(&frame);
    assert!(finish(&mut netifs[0], 0, &wire));
    let before = memory.state.borrow().writes.len();
    let rx = netifs[0].get_queue(0).unwrap().get_avail_idx();
    let idle = serve_interface_causes(&mut netifs, 0, &mut tables, 0);
    assert!(idle.is_empty());
    assert_eq!(memory.state.borrow().writes.len(), before);
    assert_eq!(netifs[0].get_queue(0).unwrap().get_last_used_idx(), 0);
    assert_eq!(netifs[0].get_queue(0).unwrap().get_avail_idx(), rx);
    assert!(tables.mac.get(&MacAddress::new(PEER)).is_none());
    let outcome = serve_interface_causes(&mut netifs, 0, &mut tables, 1);
    assert_eq!(outcome, vec![true]);
    assert_eq!(memory.state.borrow().writes[before..], [(0x050, 1)]);
    assert_eq!(netifs[0].get_queue(0).unwrap().get_last_used_idx(), 1);
    assert_eq!(netifs[0].get_queue(1).unwrap().get_avail_idx(), 1);
    assert_eq!(netifs[0].get_queue(2).unwrap().get_avail_idx(), 0);
    assert!(tables.mac.get(&MacAddress::new(PEER)).is_some());
    let again = serve_interface_causes(&mut netifs, 0, &mut tables, 1);
    assert!(again.is_empty());
    assert_eq!(memory.state.borrow().writes.len(), before + 1);
}

#[test]
fn the_first_frame_for_an_interface_goes_by_its_state_before() {
    let (m0, n0) = interface(0);
    let (m1, n1) = interface(1);
    let mut netifs = vec![n0, n1];
    let mut fill = Vec::new();
    for i in 0..8u8 {
        fill.push(TransmitRequest { netif: 1, frame: vec![i] });
    }
    assert_eq!(transmit(&mut netifs, fill), vec![true; 8]);
    let w0 = m0.state.borrow().writes.len();
    let w1 = m1.state.borrow().writes.len();
    let outcome = transmit(
        &mut netifs,
        vec![
            TransmitRequest { netif: 1, frame: vec![9] },
            TransmitRequest { netif: 0, frame: vec![7, 7] },
            TransmitRequest { netif: 2, frame: vec![1] },
        ],
    );
    assert_eq!(outcome, vec![false, true, false]);
    assert_eq!(m1.state.borrow().writes.len(), w1);
    assert_eq!(m0.state.borrow().writes[w0..], [(0x050, 1)]);
    assert_eq!(netifs[1].get_queue(1).unwrap().get_avail_idx(), 8);
    assert_eq!(netifs[0].get_queue(1).unwrap().get_avail_idx(), 1);
}
