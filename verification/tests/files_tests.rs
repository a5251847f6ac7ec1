use net_lookup::config::load_config;
use net_lookup::files::{
    get_asn_path, get_default_asn_path, get_default_directory, get_default_encoded_ip2asn_path,
    get_default_ip2asn_path, get_default_maxmind_path, get_encoded_ip2asn_path, get_ip2asn_path,
    get_maxmind_path,
};

#[test]
fn joins_file_names_onto_directories() {
    assert_eq!(get_asn_path("/data"), "/data/asn.dat");
    assert_eq!(get_asn_path("/data/"), "/data/asn.dat");
    assert_eq!(get_ip2asn_path("/data"), "/data/ip2asn.dat");
    assert_eq!(get_maxmind_path("/data"), "/data/maxmind-geolite2-city.mmdb");
    assert_eq!(get_encoded_ip2asn_path("/data"), "/data/ip2asn-encoded.dat");
}

#[test]
fn default_paths_live_under_the_home_directory() {
    assert_eq!(get_default_directory("/home/u"), "/home/u/.local/share/net-lookup");
    assert_eq!(get_default_asn_path("/home/u"), "/home/u/.local/share/net-lookup/asn.dat");
    assert_eq!(get_default_ip2asn_path("/home/u"), "/home/u/.local/share/net-lookup/ip2asn.dat");
    assert_eq!(
        get_default_maxmind_path("/home/u"),
        "/home/u/.local/share/net-lookup/maxmind-geolite2-city.mmdb"
    );
    assert_eq!(
        get_default_encoded_ip2asn_path("/home/u"),
        "/home/u/.local/share/net-lookup/ip2asn-encoded.dat"
    );
}

#[test]
fn updater_config_carries_its_values() {
    let c = load_config(
        Some("/tmp/data".to_string()),
        true,
        false,
        true,
        Some("key".to_string()),
        false,
    );
    assert_eq!(c.target_directory.as_deref(), Some("/tmp/data"));
    assert!(c.exclude_asn);
    assert!(!c.exclude_ip2asn);
    assert!(c.exclude_maxmind);
    assert_eq!(c.maxmind_key.as_deref(), Some("key"));
    assert!(!c.skip_optimize);
}
