use route53_ip_update::addr::{parse_ipv4_literal, parse_ipv6_literal, IpAddress};

#[test]
fn parses_dotted_quads() {
    assert_eq!(parse_ipv4_literal("1.1.1.1"), Some(0x01010101));
    assert_eq!(parse_ipv4_literal("255.255.255.255"), Some(0xffffffff));
    assert_eq!(parse_ipv4_literal("0.0.0.0"), Some(0));
    assert_eq!(parse_ipv4_literal("192.168.17.2"), Some(0xc0a81102));
}

#[test]
fn rejects_malformed_dotted_quads() {
    assert_eq!(parse_ipv4_literal(""), None);
    assert_eq!(parse_ipv4_literal("1.1.1"), None);
    assert_eq!(parse_ipv4_literal("1.1.1.1.1"), None);
    assert_eq!(parse_ipv4_literal("256.1.1.1"), None);
    assert_eq!(parse_ipv4_literal("01.1.1.1"), None);
    assert_eq!(parse_ipv4_literal("1.1.1."), None);
    assert_eq!(parse_ipv4_literal("a.b.c.d"), None);
    assert_eq!(parse_ipv4_literal("1.1.1.1 "), None);
}

#[test]
fn parses_full_ipv6_groups() {
    assert_eq!(
        parse_ipv6_literal("1:2:3:4:5:6:7:8"),
        Some(0x00010002000300040005000600070008)
    );
    assert_eq!(
        parse_ipv6_literal("2001:db8:0:0:0:0:0:1"),
        Some(0x20010db8000000000000000000000001)
    );
    assert_eq!(
        parse_ipv6_literal("ABCD:ef01:0:0:0:0:0:0"),
        Some(0xabcdef01000000000000000000000000)
    );
}

#[test]
fn parses_elided_ipv6() {
    assert_eq!(parse_ipv6_literal("::"), Some(0));
    assert_eq!(parse_ipv6_literal("::1"), Some(1));
    assert_eq!(parse_ipv6_literal("1::"), Some(0x00010000000000000000000000000000));
    assert_eq!(parse_ipv6_literal("2001:db8::1"), Some(0x20010db8000000000000000000000001));
    assert_eq!(parse_ipv6_literal("fe80::1:2"), Some(0xfe800000000000000000000000010002));
}

#[test]
fn parses_embedded_ipv4_tail() {
    assert_eq!(parse_ipv6_literal("::ffff:1.2.3.4"), Some(0xffff01020304));
    assert_eq!(
        parse_ipv6_literal("1:2:3:4:5:6:1.2.3.4"),
        Some(0x00010002000300040005000601020304)
    );
}

#[test]
fn rejects_malformed_ipv6() {
    assert_eq!(parse_ipv6_literal(""), None);
    assert_eq!(parse_ipv6_literal(":"), None);
    assert_eq!(parse_ipv6_literal(":::"), None);
    assert_eq!(parse_ipv6_literal("1::2::3"), None);
    assert_eq!(parse_ipv6_literal("1:2:3:4:5:6:7"), None);
    assert_eq!(parse_ipv6_literal("1:2:3:4:5:6:7:8:9"), None);
    assert_eq!(parse_ipv6_literal("12345::"), None);
    assert_eq!(parse_ipv6_literal("g::1"), None);
    assert_eq!(parse_ipv6_literal("1.2.3.4"), None);
    assert_eq!(parse_ipv6_literal(":1:2:3:4:5:6:7"), None);
    assert_eq!(parse_ipv6_literal("1:2:3:4:5:6:7:"), None);
}

#[test]
fn routability_of_well_known_ranges() {
    assert!(IpAddress::from_octets(8, 8, 8, 8).is_globally_routable());
    assert!(!IpAddress::from_octets(10, 0, 0, 1).is_globally_routable());
    assert!(!IpAddress::from_octets(127, 0, 0, 1).is_globally_routable());
    assert!(!IpAddress::from_octets(169, 254, 0, 1).is_globally_routable());
    assert!(!IpAddress::from_octets(172, 16, 0, 1).is_globally_routable());
    assert!(IpAddress::from_octets(172, 15, 0, 1).is_globally_routable());
    assert!(!IpAddress::from_octets(192, 168, 1, 1).is_globally_routable());
    assert!(!IpAddress::from_octets(100, 64, 0, 1).is_globally_routable());
    assert!(!IpAddress::from_octets(255, 255, 255, 255).is_globally_routable());
    assert!(!IpAddress::V6(0).is_globally_routable());
    assert!(!IpAddress::V6(1).is_globally_routable());
    assert!(!IpAddress::V6(0xfe800000000000000000000000000001).is_globally_routable());
    assert!(!IpAddress::V6(0xfc000000000000000000000000000001).is_globally_routable());
    assert!(!IpAddress::V6(0x20010db8000000000000000000000001).is_globally_routable());
    assert!(IpAddress::V6(0x20010df8000000000000000000000001).is_globally_routable());
}

#[test]
fn from_octets_lays_out_network_order() {
    assert_eq!(IpAddress::from_octets(1, 2, 3, 4), IpAddress::V4(0x01020304));
    assert!(IpAddress::from_octets(1, 2, 3, 4).is_v4());
    assert!(!IpAddress::V6(1).is_v4());
}
