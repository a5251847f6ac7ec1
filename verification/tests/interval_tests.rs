use net_lookup::addr::IpAddress;
use net_lookup::asn::build_asn_database;
use net_lookup::ip::{build_ip_asn_database, parse_ip_block};

fn sample_tables() -> (net_lookup::asn::AsnDatabase, net_lookup::ip::IpAsnDatabase) {
    let asn_lines = vec![
        "64500 TESTNET - Test Network, US".to_string(),
        "64501 OTHERNET - Other Network, DE".to_string(),
    ];
    let asn_db = build_asn_database(&asn_lines);
    let ip_lines = vec![
        "; a comment line".to_string(),
        "1.2.3.0/24\t64500".to_string(),
        "1.2.5.0/24\t64501".to_string(),
        "2001:db8::/32\t64501".to_string(),
        "this line is malformed".to_string(),
    ];
    let ip_db = build_ip_asn_database(&ip_lines, &asn_db);
    (asn_db, ip_db)
}

#[test]
fn finds_record_containing_address() {
    let (_, ip_db) = sample_tables();
    let rec = ip_db.lookup(IpAddress::V4(0x0102_0304)).expect("1.2.3.4 lies in 1.2.3.0/24");
    assert_eq!(rec.start, IpAddress::V4(0x0102_0300));
    assert_eq!(rec.end, IpAddress::V4(0x0102_03FF));
    let asn = rec.asn.as_ref().expect("record carries its ASN");
    assert_eq!(asn.id, 64500);
    assert_eq!(asn.handle, "TESTNET");
}

#[test]
fn boundary_addresses_are_contained() {
    let (_, ip_db) = sample_tables();
    assert!(ip_db.lookup(IpAddress::V4(0x0102_0300)).is_some());
    assert!(ip_db.lookup(IpAddress::V4(0x0102_03FF)).is_some());
}

#[test]
fn address_below_all_intervals_misses() {
    let (_, ip_db) = sample_tables();
    assert!(ip_db.lookup(IpAddress::V4(0x0102_02FF)).is_none());
    assert!(ip_db.lookup(IpAddress::V4(0)).is_none());
}

#[test]
fn address_in_gap_between_intervals_misses() {
    let (_, ip_db) = sample_tables();
    // 1.2.4.77 lies above 1.2.3.255 and below 1.2.5.0: the floor
    // record by start alone would answer, the end bound must refuse.
    assert!(ip_db.lookup(IpAddress::V4(0x0102_044D)).is_none());
    // above every IPv4 interval, below the IPv6 one
    assert!(ip_db.lookup(IpAddress::V4(0xF000_0000)).is_none());
}

#[test]
fn ipv6_interval_answers() {
    let (_, ip_db) = sample_tables();
    let rec = ip_db
        .lookup(IpAddress::V6(0x2001_0db8_0000_0000_0000_0000_0000_1234))
        .expect("address lies in 2001:db8::/32");
    assert_eq!(rec.start, IpAddress::V6(0x2001_0db8_0000_0000_0000_0000_0000_0000));
    assert_eq!(rec.end, IpAddress::V6(0x2001_0db8_ffff_ffff_ffff_ffff_ffff_ffff));
    assert!(ip_db.lookup(IpAddress::V6(0x2001_0db9_0000_0000_0000_0000_0000_0000)).is_none());
}

#[test]
fn block_bounds_cover_whole_prefixes() {
    let asn_db = build_asn_database(&vec!["1 A, US".to_string()]);
    let rec = parse_ip_block("0.0.0.0/0\t1", &asn_db).expect("whole v4 space");
    assert_eq!(rec.start, IpAddress::V4(0));
    assert_eq!(rec.end, IpAddress::V4(u32::MAX));

    let rec = parse_ip_block("9.9.9.9/32\t1", &asn_db).expect("single address");
    assert_eq!(rec.start, IpAddress::V4(0x0909_0909));
    assert_eq!(rec.end, IpAddress::V4(0x0909_0909));

    let rec = parse_ip_block("::/0\t1", &asn_db).expect("whole v6 space");
    assert_eq!(rec.start, IpAddress::V6(0));
    assert_eq!(rec.end, IpAddress::V6(u128::MAX));

    let rec = parse_ip_block("::1/128\t1", &asn_db).expect("single v6 address");
    assert_eq!(rec.start, IpAddress::V6(1));
    assert_eq!(rec.end, IpAddress::V6(1));

    // a non-canonical address is masked down to its block
    let rec = parse_ip_block("1.2.3.4/24\t1", &asn_db).expect("host bits masked");
    assert_eq!(rec.start, IpAddress::V4(0x0102_0300));
    assert_eq!(rec.end, IpAddress::V4(0x0102_03FF));
}

#[test]
fn malformed_block_lines_are_rejected() {
    let asn_db = build_asn_database(&vec!["1 A, US".to_string()]);
    assert!(parse_ip_block("1.2.3.0/33\t1", &asn_db).is_none());
    assert!(parse_ip_block("::/129\t1", &asn_db).is_none());
    assert!(parse_ip_block("1.2.3.0/24", &asn_db).is_none());
    assert!(parse_ip_block("1.2.3.0\t1", &asn_db).is_none());
    assert!(parse_ip_block("1.2.3.0/ab\t1", &asn_db).is_none());
    assert!(parse_ip_block("1.2.3.0/24\tx", &asn_db).is_none());
}

#[test]
fn unknown_asn_id_leaves_record_without_descriptor() {
    let asn_db = build_asn_database(&vec!["1 A, US".to_string()]);
    let rec = parse_ip_block("1.2.3.0/24\t999", &asn_db).expect("line parses");
    assert!(rec.asn.is_none());
}

#[test]
fn later_line_with_same_start_replaces_earlier() {
    let asn_db = build_asn_database(&vec![
        "1 A, US".to_string(),
        "2 B, DE".to_string(),
    ]);
    let lines = vec![
        "1.2.3.0/24\t1".to_string(),
        "1.2.3.0/25\t2".to_string(),
    ];
    let ip_db = build_ip_asn_database(&lines, &asn_db);
    let rec = ip_db.lookup(IpAddress::V4(0x0102_0300)).expect("present");
    assert_eq!(rec.asn.as_ref().unwrap().id, 2);
    assert_eq!(rec.end, IpAddress::V4(0x0102_037F));
}
