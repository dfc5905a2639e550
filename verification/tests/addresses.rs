use std::cmp::Ordering;
use urchin::net::ethernet::MacAddress;
use urchin::net::ipv4::Ipv4Address;
use urchin::net::ipv6::Ipv6Address;

#[test]
fn ipv4_from_array_packs_most_significant_first() {
    let a = Ipv4Address::from_array([192, 168, 0, 10]);
    assert_eq!(a.get_prim(), 0xc0a8_000a);
    assert_eq!(a.get_array(), [192, 168, 0, 10]);
}

#[test]
fn ipv4_masked_clears_the_host_bits() {
    let a = Ipv4Address::from_array([192, 168, 7, 99]);
    assert_eq!(a.masked(24).get_array(), [192, 168, 7, 0]);
    assert_eq!(a.masked(32), a);
    assert_eq!(a.masked(0).get_prim(), 0);
    assert_eq!(a.masked(20).get_array(), [192, 168, 0, 0]);
    assert_eq!(a.masked(24).masked(24), a.masked(24));
}

#[test]
fn mac_packs_least_significant_first() {
    let m = MacAddress::new([0x02, 0xaa, 0xaa, 0xaa, 0xaa, 0x01]);
    assert_eq!(m.get_prim(), 0x01aa_aaaa_aa02);
    assert_eq!(m.get_array(), [0x02, 0xaa, 0xaa, 0xaa, 0xaa, 0x01]);
}

#[test]
fn addresses_are_ordered_by_their_integer() {
    assert!(Ipv4Address::from_array([10, 0, 0, 1]) < Ipv4Address::from_array([10, 0, 0, 2]));
    assert!(Ipv4Address::from_array([9, 255, 255, 255]) < Ipv4Address::from_array([10, 0, 0, 0]));
    assert!(MacAddress::new([0xff, 0, 0, 0, 0, 0]) < MacAddress::new([0, 1, 0, 0, 0, 0]));
    let mut lo = [0u8; 16];
    lo[15] = 1;
    let mut hi = [0u8; 16];
    hi[0] = 1;
    assert!(Ipv6Address::from_array(lo) < Ipv6Address::from_array(hi));
}

#[test]
fn ipv6_round_trip_and_mask() {
    let a: [u8; 16] = [0xfe, 0x80, 0, 0, 0, 0, 0, 0, 0x02, 0xaa, 0xaa, 0xff, 0xfe, 0xaa, 0xaa, 0x01];
    let x = Ipv6Address::from_array(a);
    assert_eq!(x.get_array(), a);
    assert_eq!(x.get_prim(), 0xfe80_0000_0000_0000_02aa_aaff_feaa_aa01);
    let m = x.masked(64).get_array();
    assert_eq!(m, [0xfe, 0x80, 0, 0, 0, 0, 0, 0, 0, 0, 0, 0, 0, 0, 0, 0]);
    assert_eq!(x.masked(128), x);
    assert_eq!(x.masked(0).get_prim(), 0);
    assert_eq!(x.masked(10).masked(10), x.masked(10));
}

#[test]
fn the_order_of_addresses_is_total() {
    let a = MacAddress::new([1, 0, 0, 0, 0, 0]);
    let b = MacAddress::new([0, 0, 0, 0, 0, 1]);
    assert_eq!(a.get_prim(), 0x0000_0000_0001);
    assert_eq!(b.get_prim(), 0x0100_0000_0000);
    assert_eq!(a.partial_cmp(&b), Some(Ordering::Less));
    assert_eq!(b.partial_cmp(&a), Some(Ordering::Greater));
    assert_eq!(a.partial_cmp(&a), Some(Ordering::Equal));
    assert_eq!(a.cmp(&b), Ordering::Less);
    assert!(a < b && a <= b && b > a && b >= a && a <= a && !(a < a));
    let x = Ipv4Address::from_array([127, 255, 255, 255]);
    let y = Ipv4Address::from_array([128, 0, 0, 0]);
    assert_eq!(x.partial_cmp(&y), Some(Ordering::Less));
    assert_eq!(y.partial_cmp(&x), Some(Ordering::Greater));
    assert_eq!(y.partial_cmp(&y), Some(Ordering::Equal));
    assert_eq!(x.cmp(&y), Ordering::Less);
    let mut sorted = vec![y, x, Ipv4Address::from_array([0, 0, 0, 1])];
    sorted.sort();
    assert_eq!(sorted[0].get_prim(), 1);
    assert_eq!(sorted[1], x);
    assert_eq!(sorted[2], y);
    let mut top = [0u8; 16];
    top[0] = 0x80;
    let p = Ipv6Address::from_array([0x7f; 16]);
    let q = Ipv6Address::from_array(top);
    assert_eq!(p.partial_cmp(&q), Some(Ordering::Less));
    assert_eq!(q.partial_cmp(&p), Some(Ordering::Greater));
    assert_eq!(q.partial_cmp(&q), Some(Ordering::Equal));
    assert_eq!(p.cmp(&q), Ordering::Less);
}
