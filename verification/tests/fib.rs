use urchin::net::ethernet::MacAddress;
use urchin::net::fib::{
    configure_interface, find_ipv4_fib, find_ipv6_fib, ipv4_mask_to_prefixlen, register_ipv4_adjacent, register_ipv4_fib,
    register_ipv6_adjacent, register_ipv6_fib, register_macaddress, AdjacentInformation, FIBType,
    ForwardInformationBaseIpv4, ForwardInformationBaseIpv6, ForwardingTables, Ipv4AdjacentTable, Ipv4FibIndex,
    Ipv6AdjacentTable, Ipv6FibIndex, MacAddressTable,
};
use urchin::net::ipv4::Ipv4Address;
use urchin::net::ipv6::Ipv6Address;

fn mac(last: u8) -> MacAddress {
    MacAddress::new([0x02, 0xaa, 0xaa, 0xaa, 0xaa, last])
}

fn ip(a: u8, b: u8, c: u8, d: u8) -> Ipv4Address {
    Ipv4Address::from_array([a, b, c, d])
}

#[test]
fn mask_to_prefixlen_knows_every_contiguous_mask() {
    assert_eq!(ipv4_mask_to_prefixlen(0xffff_ffff), 32);
    assert_eq!(ipv4_mask_to_prefixlen(0xffff_fffe), 31);
    assert_eq!(ipv4_mask_to_prefixlen(0xffff_ff00), 24);
    assert_eq!(ipv4_mask_to_prefixlen(0xffff_0000), 16);
    assert_eq!(ipv4_mask_to_prefixlen(0xff00_0000), 8);
    assert_eq!(ipv4_mask_to_prefixlen(0x8000_0000), 1);
    assert_eq!(ipv4_mask_to_prefixlen(0x0000_0000), 0);
    let mut p: u32 = 1;
    while p <= 32 {
        assert_eq!(ipv4_mask_to_prefixlen(0xffff_ffffu32 << (32 - p)), p as usize);
        p += 1;
    }
}

#[test]
fn mask_to_prefixlen_gives_zero_for_other_masks() {
    assert_eq!(ipv4_mask_to_prefixlen(0xff00_ff00), 0);
    assert_eq!(ipv4_mask_to_prefixlen(0x0000_00ff), 0);
    assert_eq!(ipv4_mask_to_prefixlen(0x7fff_ffff), 0);
}

#[test]
fn find_returns_the_longest_prefix() {
    let mut fib = Ipv4FibIndex::new();
    register_ipv4_fib(&mut fib, ip(192, 168, 0, 0), 0xffff_ff00, mac(1), ip(192, 168, 0, 1), 3, FIBType::Adjacent);
    register_ipv4_fib(&mut fib, ip(192, 168, 0, 10), 0xffff_ffff, mac(2), ip(192, 168, 0, 10), 4, FIBType::Local);
    register_ipv4_fib(&mut fib, ip(0, 0, 0, 0), 0, mac(3), ip(192, 168, 0, 254), 5, FIBType::Remote);
    let host = find_ipv4_fib(&fib, &ip(192, 168, 0, 10), 0xffff_ffff).unwrap();
    assert_eq!(host.get_fib_type(), FIBType::Local);
    assert_eq!(host.get_netif(), 4);
    assert_eq!(host.get_nexthop_macaddress(), mac(2));
    let net = find_ipv4_fib(&fib, &ip(192, 168, 0, 11), 0xffff_ffff).unwrap();
    assert_eq!(net.get_fib_type(), FIBType::Adjacent);
    assert_eq!(net.get_netif(), 3);
    assert_eq!(net.get_nexthop_address(), ip(192, 168, 0, 1));
    let default = find_ipv4_fib(&fib, &ip(8, 8, 8, 8), 0xffff_ffff).unwrap();
    assert_eq!(default.get_fib_type(), FIBType::Remote);
    assert_eq!(default.get_netif(), 5);
}

#[test]
fn find_starts_at_the_given_prefix() {
    let mut fib = Ipv4FibIndex::new();
    register_ipv4_fib(&mut fib, ip(192, 168, 0, 0), 0xffff_ff00, mac(1), ip(192, 168, 0, 1), 3, FIBType::Adjacent);
    register_ipv4_fib(&mut fib, ip(192, 168, 0, 10), 0xffff_ffff, mac(2), ip(192, 168, 0, 10), 4, FIBType::Local);
    let from_24 = find_ipv4_fib(&fib, &ip(192, 168, 0, 10), 0xffff_ff00).unwrap();
    assert_eq!(from_24.get_fib_type(), FIBType::Adjacent);
    assert!(find_ipv4_fib(&fib, &ip(192, 168, 0, 10), 0xffff_0000).is_none());
}

#[test]
fn find_misses_without_a_covering_route() {
    let mut fib = Ipv4FibIndex::new();
    assert!(find_ipv4_fib(&fib, &ip(10, 0, 0, 1), 0xffff_ffff).is_none());
    register_ipv4_fib(&mut fib, ip(192, 168, 0, 0), 0xffff_ff00, mac(1), ip(192, 168, 0, 1), 0, FIBType::Adjacent);
    assert!(find_ipv4_fib(&fib, &ip(10, 0, 0, 1), 0xffff_ffff).is_none());
    assert!(find_ipv4_fib(&fib, &ip(192, 168, 1, 1), 0xffff_ffff).is_none());
}

#[test]
fn a_mask_that_is_no_network_mask_names_no_route() {
    let mut fib = Ipv4FibIndex::new();
    register_ipv4_fib(&mut fib, ip(10, 0, 0, 0), 0xff00_ff00, mac(1), ip(10, 0, 0, 1), 1, FIBType::Remote);
    register_ipv4_fib(&mut fib, ip(10, 0, 0, 0), 0x0000_00ff, mac(1), ip(10, 0, 0, 1), 1, FIBType::Remote);
    register_ipv4_fib(&mut fib, ip(10, 0, 0, 0), 0x7fff_ffff, mac(1), ip(10, 0, 0, 1), 1, FIBType::Remote);
    assert!(find_ipv4_fib(&fib, &ip(10, 0, 0, 7), 0xffff_ffff).is_none());
    assert!(find_ipv4_fib(&fib, &ip(0, 0, 0, 0), 0xffff_ffff).is_none());
    register_ipv4_fib(&mut fib, ip(10, 0, 0, 0), 0, mac(2), ip(10, 0, 0, 1), 2, FIBType::Remote);
    assert_eq!(find_ipv4_fib(&fib, &ip(99, 0, 0, 7), 0xffff_ffff).unwrap().get_netif(), 2);
}

#[test]
fn routes_are_keyed_by_the_masked_address() {
    let mut fib = Ipv4FibIndex::new();
    register_ipv4_fib(&mut fib, ip(192, 168, 1, 77), 0xffff_ff00, mac(1), ip(192, 168, 1, 1), 2, FIBType::Adjacent);
    let hit = find_ipv4_fib(&fib, &ip(192, 168, 1, 5), 0xffff_ffff).unwrap();
    assert_eq!(hit.get_netif(), 2);
}

#[test]
fn a_later_route_of_the_same_prefix_replaces_the_earlier() {
    let mut fib = Ipv4FibIndex::new();
    register_ipv4_fib(&mut fib, ip(10, 1, 0, 0), 0xffff_0000, mac(1), ip(10, 1, 0, 1), 1, FIBType::Remote);
    register_ipv4_fib(&mut fib, ip(10, 1, 0, 0), 0xffff_0000, mac(2), ip(10, 1, 0, 2), 2, FIBType::Adjacent);
    let hit = find_ipv4_fib(&fib, &ip(10, 1, 2, 3), 0xffff_ffff).unwrap();
    assert_eq!(hit.get_netif(), 2);
    assert_eq!(hit.get_fib_type(), FIBType::Adjacent);
}

#[test]
fn ipv6_find_returns_the_longest_prefix() {
    let mut fib = Ipv6FibIndex::new();
    let mut net = [0u8; 16];
    net[0] = 0xfe;
    net[1] = 0x80;
    let mut host = net;
    host[15] = 0x01;
    let mut other = net;
    other[15] = 0x02;
    register_ipv6_fib(&mut fib, Ipv6Address::from_array(host), 64, mac(1), Ipv6Address::from_array(net), 1, FIBType::Adjacent);
    register_ipv6_fib(&mut fib, Ipv6Address::from_array(host), 128, mac(2), Ipv6Address::from_array(host), 2, FIBType::Local);
    let h = find_ipv6_fib(&fib, &Ipv6Address::from_array(host), 128).unwrap();
    assert_eq!(h.get_fib_type(), FIBType::Local);
    assert_eq!(h.get_netif(), 2);
    assert_eq!(h.get_nexthop_macaddress(), mac(2));
    assert_eq!(h.get_nexthop_address(), Ipv6Address::from_array(host));
    let o = find_ipv6_fib(&fib, &Ipv6Address::from_array(other), 128).unwrap();
    assert_eq!(o.get_fib_type(), FIBType::Adjacent);
    assert_eq!(o.get_netif(), 1);
    let mut far = [0u8; 16];
    far[0] = 0x20;
    assert!(find_ipv6_fib(&fib, &Ipv6Address::from_array(far), 128).is_none());
    let lower = find_ipv6_fib(&fib, &Ipv6Address::from_array(host), 64).unwrap();
    assert_eq!(lower.get_netif(), 1);
}

#[test]
fn a_permanent_neighbour_is_never_replaced() {
    let mut table = Ipv4AdjacentTable::new();
    register_ipv4_adjacent(&mut table, ip(10, 0, 0, 1), mac(1), 0, true, None);
    register_ipv4_adjacent(&mut table, ip(10, 0, 0, 1), mac(2), 1, false, Some(5));
    register_ipv4_adjacent(&mut table, ip(10, 0, 0, 1), mac(3), 2, false, None);
    register_ipv4_adjacent(&mut table, ip(10, 0, 0, 2), mac(4), 3, false, None);
    let adj = table.get(&ip(10, 0, 0, 1)).unwrap();
    assert_eq!(adj.get_macaddress(), mac(1));
    assert_eq!(adj.get_netif(), 0);
    assert!(adj.is_local());
    assert_eq!(adj.get_expire_time(), None);
    assert_eq!(table.get(&ip(10, 0, 0, 2)).unwrap().get_macaddress(), mac(4));
    assert!(table.get(&ip(10, 0, 0, 3)).is_none());
}

#[test]
fn an_expiring_neighbour_is_replaced() {
    let mut table = Ipv4AdjacentTable::new();
    register_ipv4_adjacent(&mut table, ip(10, 0, 0, 1), mac(1), 0, false, Some(100));
    register_ipv4_adjacent(&mut table, ip(10, 0, 0, 1), mac(2), 1, false, Some(200));
    let adj = table.get(&ip(10, 0, 0, 1)).unwrap();
    assert_eq!(adj.get_macaddress(), mac(2));
    assert_eq!(adj.get_netif(), 1);
    assert_eq!(adj.get_expire_time(), Some(200));
    register_ipv4_adjacent(&mut table, ip(10, 0, 0, 1), mac(3), 2, true, None);
    register_ipv4_adjacent(&mut table, ip(10, 0, 0, 1), mac(4), 3, false, Some(300));
    let adj = table.get(&ip(10, 0, 0, 1)).unwrap();
    assert_eq!(adj.get_macaddress(), mac(3));
    assert!(adj.is_local());
}

#[test]
fn the_other_tables_follow_the_same_rule() {
    let mut v6 = Ipv6AdjacentTable::new();
    let mut a = [0u8; 16];
    a[15] = 9;
    let addr = Ipv6Address::from_array(a);
    register_ipv6_adjacent(&mut v6, addr, mac(1), 0, false, Some(1));
    register_ipv6_adjacent(&mut v6, addr, mac(2), 1, false, None);
    register_ipv6_adjacent(&mut v6, addr, mac(3), 2, false, Some(2));
    assert_eq!(v6.get(&addr).unwrap().get_macaddress(), mac(2));
    let mut macs = MacAddressTable::new();
    register_macaddress(&mut macs, mac(7), 4, false, None);
    register_macaddress(&mut macs, mac(7), 5, true, None);
    let e = macs.get(&mac(7)).unwrap();
    assert_eq!(e.get_netif(), 4);
    assert!(!e.is_local());
    assert_eq!(e.get_macaddress(), mac(7));
    assert!(macs.get(&mac(8)).is_none());
}

#[test]
fn entries_give_back_what_they_were_made_of() {
    let adj = AdjacentInformation::new(mac(5), 7, true, Some(42));
    assert_eq!(adj.get_macaddress(), mac(5));
    assert_eq!(adj.get_netif(), 7);
    assert!(adj.is_local());
    assert_eq!(adj.get_expire_time(), Some(42));
    let f4 = ForwardInformationBaseIpv4::new(mac(1), ip(1, 2, 3, 4), 9, FIBType::Remote);
    assert_eq!(f4.get_nexthop_macaddress(), mac(1));
    assert_eq!(f4.get_nexthop_address(), ip(1, 2, 3, 4));
    assert_eq!(f4.get_netif(), 9);
    assert_eq!(f4.get_fib_type(), FIBType::Remote);
    let a6 = Ipv6Address::from_array([1; 16]);
    let f6 = ForwardInformationBaseIpv6::new(mac(2), a6, 3, FIBType::AdjacentResolved);
    assert_eq!(f6.get_nexthop_macaddress(), mac(2));
    assert_eq!(f6.get_nexthop_address(), a6);
    assert_eq!(f6.get_netif(), 3);
    assert_eq!(f6.get_fib_type(), FIBType::AdjacentResolved);
}

#[test]
fn configuring_an_interface_enters_its_addresses() {
    let mut tables = ForwardingTables::new();
    let m0 = MacAddress::new([0x52, 0x54, 0x00, 0x12, 0x34, 0x56]);
    configure_interface(&mut tables, 0, m0, ip(192, 168, 0, 10), 24);
    let own = tables.mac.get(&m0).unwrap();
    assert!(own.is_local());
    assert_eq!(own.get_expire_time(), None);
    let adj = tables.ipv4_adjacent.get(&ip(192, 168, 0, 10)).unwrap();
    assert!(adj.is_local());
    assert_eq!(adj.get_macaddress(), m0);
    let host = find_ipv4_fib(&tables.ipv4_fib, &ip(192, 168, 0, 10), 0xffff_ffff).unwrap();
    assert_eq!(host.get_fib_type(), FIBType::Local);
    let net = find_ipv4_fib(&tables.ipv4_fib, &ip(192, 168, 0, 77), 0xffff_ffff).unwrap();
    assert_eq!(net.get_fib_type(), FIBType::Adjacent);
    assert_eq!(net.get_nexthop_address(), ip(192, 168, 0, 10));
    assert!(find_ipv4_fib(&tables.ipv4_fib, &ip(192, 168, 1, 77), 0xffff_ffff).is_none());
    let lla = Ipv6Address::from_array([0xfe, 0x80, 0, 0, 0, 0, 0, 0, 0x52, 0x54, 0x00, 0xff, 0xfe, 0x12, 0x34, 0x56]);
    let l = find_ipv6_fib(&tables.ipv6_fib, &lla, 128).unwrap();
    assert_eq!(l.get_fib_type(), FIBType::Local);
    assert_eq!(l.get_nexthop_macaddress(), m0);
    assert!(tables.ipv6_adjacent.get(&lla).unwrap().is_local());
    let snm = Ipv6Address::from_array([0xff, 0x02, 0, 0, 0, 0, 0, 0, 0, 0, 0, 0x01, 0xff, 0x12, 0x34, 0x56]);
    let s = find_ipv6_fib(&tables.ipv6_fib, &snm, 128).unwrap();
    assert_eq!(s.get_fib_type(), FIBType::Local);
    let snm_mac = MacAddress::new([0x33, 0x33, 0xff, 0x12, 0x34, 0x56]);
    assert_eq!(s.get_nexthop_macaddress(), snm_mac);
    assert!(tables.mac.get(&snm_mac).unwrap().is_local());
    let all = Ipv6Address::from_array([0xff, 0x02, 0, 0, 0, 0, 0, 0, 0, 0, 0, 0, 0, 0, 0, 0x01]);
    let a = find_ipv6_fib(&tables.ipv6_fib, &all, 128).unwrap();
    assert_eq!(a.get_fib_type(), FIBType::Local);
    let all_mac = MacAddress::new([0x33, 0x33, 0x00, 0x00, 0x00, 0x01]);
    assert_eq!(a.get_nexthop_macaddress(), all_mac);
    assert!(tables.mac.get(&all_mac).unwrap().is_local());
}
