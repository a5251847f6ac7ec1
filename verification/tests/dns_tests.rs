use net_lookup::dns::{
    clean_reverse_names, normalize_domain, plan_domain_lookup, DnsLookupResult, DnsLookupResultMx,
    DnsLookupResultSoa,
};

fn canned_soa() -> DnsLookupResultSoa {
    DnsLookupResultSoa {
        mname: "ns1.example.test.".to_string(),
        rname: "hostmaster.example.test.".to_string(),
        serial: 2024010101,
        refresh: 7200,
        retry: 3600,
        expire: 1209600,
        minimum: 300,
    }
}

#[test]
fn empty_record_set_has_nothing() {
    let r = DnsLookupResult::empty();
    assert!(r.a.is_empty());
    assert!(r.aaaa.is_empty());
    assert!(r.cname.is_empty());
    assert!(r.ns.is_empty());
    assert!(r.mx.is_empty());
    assert!(r.txt.is_empty());
    assert!(r.soa.is_none());
}

#[test]
fn failed_txt_subquery_leaves_other_fields_populated() {
    // the stub's canned data, with only the TXT sub-query failing
    let r = DnsLookupResult::assemble(
        Some(vec![0x0102_0304]),
        Some(vec![1]),
        Some(vec!["alias.example.test.".to_string()]),
        Some(vec!["ns1.example.test.".to_string()]),
        Some(vec![DnsLookupResultMx { preference: 10, exchange: "mx.example.test.".to_string() }]),
        None,
        Some(canned_soa()),
    );
    assert!(r.txt.is_empty());
    assert_eq!(r.a, vec![0x0102_0304]);
    assert_eq!(r.aaaa, vec![1]);
    assert_eq!(r.cname, vec!["alias.example.test.".to_string()]);
    assert_eq!(r.ns, vec!["ns1.example.test.".to_string()]);
    assert_eq!(r.mx.len(), 1);
    assert_eq!(r.mx[0].preference, 10);
    assert_eq!(r.mx[0].exchange, "mx.example.test.");
    let soa = r.soa.expect("soa answered");
    assert_eq!(soa.serial, 2024010101);
    assert_eq!(soa.minimum, 300);
}

#[test]
fn all_failed_subqueries_equal_empty_set() {
    let r = DnsLookupResult::assemble(None, None, None, None, None, None, None);
    assert!(r.a.is_empty());
    assert!(r.aaaa.is_empty());
    assert!(r.cname.is_empty());
    assert!(r.ns.is_empty());
    assert!(r.mx.is_empty());
    assert!(r.txt.is_empty());
    assert!(r.soa.is_none());
}

#[test]
fn normalizes_domains_to_absolute_form() {
    assert_eq!(normalize_domain("example.com"), "example.com.");
    assert_eq!(normalize_domain("example.com."), "example.com.");
    assert_eq!(normalize_domain(""), ".");
}

#[test]
fn plans_accept_ordinary_names() {
    let plan = plan_domain_lookup("example.test");
    assert_eq!(plan.normalized, "example.test.");
    assert!(plan.dname.is_some());

    let plan = plan_domain_lookup("example.test.");
    assert_eq!(plan.normalized, "example.test.");
    assert!(plan.dname.is_some());
}

#[test]
fn plans_reject_malformed_names() {
    // an empty label inside the name is not a valid DNS name
    let plan = plan_domain_lookup("a..b");
    assert_eq!(plan.normalized, "a..b.");
    assert!(plan.dname.is_none());

    // a label longer than 63 octets is rejected
    let long_label = "x".repeat(64);
    let plan = plan_domain_lookup(&long_label);
    assert!(plan.dname.is_none());
}

#[test]
fn reverse_names_lose_their_root_dots() {
    let names = vec![
        "host.example.test.".to_string(),
        "plain.example.test".to_string(),
        "odd..".to_string(),
    ];
    let cleaned = clean_reverse_names(&names);
    assert_eq!(
        cleaned,
        vec![
            "host.example.test".to_string(),
            "plain.example.test".to_string(),
            "odd".to_string(),
        ]
    );
}
