use net_lookup::addr::IpAddress;
use net_lookup::asn::build_asn_database;
use net_lookup::dns::DnsLookupResult;
use net_lookup::ip::build_ip_asn_database;
use net_lookup::lookup::{classify_query, create_lookup_handler, IpSideData, LookupHandler, QueryKind};

fn sample_handler() -> LookupHandler {
    let asn_db = build_asn_database(&vec!["64500 TESTNET - Test Network, US".to_string()]);
    let ip_db = build_ip_asn_database(&vec!["1.2.3.0/24\t64500".to_string()], &asn_db);
    create_lookup_handler(ip_db)
}

fn no_side_data() -> IpSideData {
    IpSideData { geo: None, reverse_dns: None }
}

#[test]
fn classifies_addresses_and_domains() {
    assert_eq!(classify_query("1.2.3.4"), QueryKind::Ip(IpAddress::V4(0x0102_0304)));
    assert_eq!(classify_query("::1"), QueryKind::Ip(IpAddress::V6(1)));
    assert_eq!(classify_query("example.test"), QueryKind::Domain);
    assert_eq!(classify_query("999.1.2.3"), QueryKind::Domain);
}

#[test]
fn ip_lookup_reports_testnet_handle() {
    let handler = sample_handler();
    let result = handler.lookup_ip(IpAddress::V4(0x0102_0304), None, None);
    assert_eq!(result.ip, IpAddress::V4(0x0102_0304));
    let asn = result.asn.expect("1.2.3.4 belongs to a loaded interval");
    assert_eq!(asn.handle, "TESTNET");
    assert_eq!(asn.id, 64500);
    assert!(result.geo.is_none());
    assert!(result.reverse_dns.is_none());
}

#[test]
fn ip_lookup_carries_collaborator_answers_through() {
    let handler = sample_handler();
    let result = handler.lookup_ip(
        IpAddress::V4(0x0102_0304),
        Some("{\"city\":\"Testville\"}".to_string()),
        Some(vec!["host.example.test".to_string()]),
    );
    assert_eq!(result.geo.as_deref(), Some("{\"city\":\"Testville\"}"));
    assert_eq!(result.reverse_dns, Some(vec!["host.example.test".to_string()]));
}

#[test]
fn ip_lookup_outside_all_intervals_has_no_asn() {
    let handler = sample_handler();
    let result = handler.lookup_ip(IpAddress::V4(0x0908_0706), None, None);
    assert!(result.asn.is_none());
}

#[test]
fn domain_aggregation_partitions_by_family() {
    let handler = sample_handler();
    let dns = DnsLookupResult::assemble(
        Some(vec![0x0102_0304]),
        Some(vec![]),
        None,
        None,
        None,
        None,
        None,
    );
    let result = handler.lookup_domain("example.test".to_string(), dns, vec![no_side_data()]);
    assert_eq!(result.domain, "example.test");
    assert_eq!(result.ipv4.len(), 1);
    assert_eq!(result.ipv4[0].ip, IpAddress::V4(0x0102_0304));
    assert_eq!(result.ipv4[0].asn.as_ref().expect("known interval").id, 64500);
    assert!(result.ipv6.is_empty());
}

#[test]
fn domain_aggregation_copies_record_fields_through() {
    let handler = sample_handler();
    let dns = DnsLookupResult::assemble(
        Some(vec![0x0102_0304]),
        Some(vec![0x2001_0db8_0000_0000_0000_0000_0000_0001]),
        Some(vec!["alias.example.test".to_string()]),
        Some(vec!["ns1.example.test".to_string()]),
        None,
        Some(vec!["v=spf1 -all".to_string()]),
        None,
    );
    let extras = vec![no_side_data(), no_side_data()];
    let result = handler.lookup_domain("example.test".to_string(), dns, extras);
    assert_eq!(result.ipv4.len(), 1);
    assert_eq!(result.ipv6.len(), 1);
    assert_eq!(result.ipv6[0].ip, IpAddress::V6(0x2001_0db8_0000_0000_0000_0000_0000_0001));
    assert!(result.ipv6[0].asn.is_none());
    assert_eq!(result.cname, vec!["alias.example.test".to_string()]);
    assert_eq!(result.ns, vec!["ns1.example.test".to_string()]);
    assert!(result.mx.is_empty());
    assert_eq!(result.txt, vec!["v=spf1 -all".to_string()]);
    assert!(result.soa.is_none());
}

#[test]
fn each_request_gets_its_own_reply() {
    // Many requests with distinct canned record sets: each reply is
    // computed from its own request's data alone, never another's.
    let handler = sample_handler();
    let mut results = Vec::new();
    for k in 0..60u32 {
        let domain = format!("host-{}.example.test", k);
        let dns = DnsLookupResult::assemble(
            Some(vec![k]),
            Some(vec![]),
            None,
            None,
            None,
            Some(vec![format!("token-{}", k)]),
            None,
        );
        results.push(handler.lookup_domain(domain, dns, vec![no_side_data()]));
    }
    for k in 0..60u32 {
        let result = &results[k as usize];
        assert_eq!(result.domain, format!("host-{}.example.test", k));
        assert_eq!(result.ipv4.len(), 1);
        assert_eq!(result.ipv4[0].ip, IpAddress::V4(k));
        assert_eq!(result.txt, vec![format!("token-{}", k)]);
    }
}
