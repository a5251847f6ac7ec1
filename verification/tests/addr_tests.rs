use net_lookup::addr::{parse_ip_address, parse_ipv4, parse_ipv6, IpAddress};

#[test]
fn parses_plain_ipv4() {
    assert_eq!(parse_ipv4("1.2.3.4"), Some(0x0102_0304));
    assert_eq!(parse_ipv4("0.0.0.0"), Some(0));
    assert_eq!(parse_ipv4("255.255.255.255"), Some(u32::MAX));
    assert_eq!(parse_ipv4("192.168.0.1"), Some(0xC0A8_0001));
}

#[test]
fn rejects_malformed_ipv4() {
    assert_eq!(parse_ipv4(""), None);
    assert_eq!(parse_ipv4("1.2.3"), None);
    assert_eq!(parse_ipv4("1.2.3.4.5"), None);
    assert_eq!(parse_ipv4("256.1.1.1"), None);
    assert_eq!(parse_ipv4("01.2.3.4"), None);
    assert_eq!(parse_ipv4("1.2.3.f"), None);
    assert_eq!(parse_ipv4("1..2.3"), None);
    assert_eq!(parse_ipv4("1.2.3.4 "), None);
}

#[test]
fn parses_full_ipv6() {
    assert_eq!(
        parse_ipv6("1:2:3:4:5:6:7:8"),
        Some(0x0001_0002_0003_0004_0005_0006_0007_0008)
    );
    assert_eq!(
        parse_ipv6("2001:db8:0:0:0:ff00:42:8329"),
        Some(0x2001_0db8_0000_0000_0000_ff00_0042_8329)
    );
}

#[test]
fn parses_compressed_ipv6() {
    assert_eq!(parse_ipv6("::"), Some(0));
    assert_eq!(parse_ipv6("::1"), Some(1));
    assert_eq!(parse_ipv6("1::"), Some(0x0001_0000_0000_0000_0000_0000_0000_0000));
    assert_eq!(
        parse_ipv6("2001:db8::ff00:42:8329"),
        Some(0x2001_0db8_0000_0000_0000_ff00_0042_8329)
    );
    assert_eq!(
        parse_ipv6("1:2:3:4:5:6:7::"),
        Some(0x0001_0002_0003_0004_0005_0006_0007_0000)
    );
    assert_eq!(parse_ipv6("::ffff"), Some(0xffff));
}

#[test]
fn rejects_malformed_ipv6() {
    assert_eq!(parse_ipv6(""), None);
    assert_eq!(parse_ipv6(":"), None);
    assert_eq!(parse_ipv6(":::"), None);
    assert_eq!(parse_ipv6("1:2"), None);
    assert_eq!(parse_ipv6("1:2:3:4:5:6:7"), None);
    assert_eq!(parse_ipv6("1:2:3:4:5:6:7:8:9"), None);
    assert_eq!(parse_ipv6("::1:2:3:4:5:6:7:8"), None);
    assert_eq!(parse_ipv6("12345::"), None);
    assert_eq!(parse_ipv6("g::"), None);
    assert_eq!(parse_ipv6("1:::2"), None);
    assert_eq!(parse_ipv6("1:2:"), None);
    assert_eq!(parse_ipv6(":1:2"), None);
}

#[test]
fn dispatches_between_families() {
    assert_eq!(parse_ip_address("1.2.3.4"), Some(IpAddress::V4(0x0102_0304)));
    assert_eq!(parse_ip_address("::1"), Some(IpAddress::V6(1)));
    assert_eq!(parse_ip_address("example.com"), None);
    assert_eq!(parse_ip_address("1.2.3.4.5"), None);
}

#[test]
fn orders_v4_before_v6() {
    let a = IpAddress::V4(u32::MAX);
    let b = IpAddress::V6(0);
    assert!(a.le(&b));
    assert!(!b.le(&a));
    assert!(IpAddress::V4(1).le(&IpAddress::V4(1)));
    assert!(IpAddress::V6(5).le(&IpAddress::V6(9)));
    assert!(!IpAddress::V6(9).le(&IpAddress::V6(5)));
}
