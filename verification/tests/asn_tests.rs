use net_lookup::asn::{
    build_asn_database, parse_autonomous_system_number, parse_handle_and_name,
};
use net_lookup::text::parse_u32_dec;

#[test]
fn parses_entry_with_name_and_spaced_country() {
    let asn = parse_autonomous_system_number("6988 ENERGIS - Energis A/S, The Netherlands")
        .expect("line should parse");
    assert_eq!(asn.id, 6988);
    assert_eq!(asn.handle, "ENERGIS");
    assert_eq!(asn.name.as_deref(), Some("Energis A/S"));
    assert_eq!(asn.country, "The Netherlands");
}

#[test]
fn parses_entry_without_name_separator() {
    let asn = parse_autonomous_system_number("1 LVLT LEVEL3, US").expect("line should parse");
    assert_eq!(asn.id, 1);
    assert_eq!(asn.handle, "LVLT");
    assert_eq!(asn.name, None);
    assert_eq!(asn.country, "US");
}

#[test]
fn parses_entry_with_bare_country() {
    let asn = parse_autonomous_system_number("123 US").expect("line should parse");
    assert_eq!(asn.id, 123);
    assert_eq!(asn.handle, "");
    assert_eq!(asn.name, None);
    assert_eq!(asn.country, "US");
}

#[test]
fn rejects_lines_without_id() {
    assert!(parse_autonomous_system_number("nospace").is_none());
    assert!(parse_autonomous_system_number("").is_none());
    assert!(parse_autonomous_system_number("abc DEF, US").is_none());
    assert!(parse_autonomous_system_number("99999999999 X, US").is_none());
}

#[test]
fn splits_handle_and_name() {
    let (handle, name) = parse_handle_and_name("ENERGIS - Energis A/S,");
    assert_eq!(handle, "ENERGIS");
    assert_eq!(name.as_deref(), Some("Energis A/S"));

    let (handle, name) = parse_handle_and_name("LVLT LEVEL3");
    assert_eq!(handle, "LVLT LEVEL3");
    assert_eq!(name, None);
}

#[test]
fn table_keeps_last_entry_per_id() {
    let lines = vec![
        "7 FIRST - First Network, US".to_string(),
        "not a valid line".to_string(),
        "7 SECOND - Second Network, DE".to_string(),
    ];
    let db = build_asn_database(&lines);
    let asn = db.lookup(7).expect("id 7 should be present");
    assert_eq!(asn.handle, "SECOND");
    assert_eq!(asn.country, "DE");
    assert!(db.lookup(8).is_none());
}

#[test]
fn decimal_parsing_is_exact() {
    assert_eq!(parse_u32_dec("0"), Some(0));
    assert_eq!(parse_u32_dec("007"), Some(7));
    assert_eq!(parse_u32_dec("4294967295"), Some(u32::MAX));
    assert_eq!(parse_u32_dec("4294967296"), None);
    assert_eq!(parse_u32_dec(""), None);
    assert_eq!(parse_u32_dec("+1"), None);
    assert_eq!(parse_u32_dec("12a"), None);
}
