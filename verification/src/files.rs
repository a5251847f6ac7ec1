//! Where the data files live: each table's file name joined onto a
//! data directory, and the default directory under a home directory.

use vstd::prelude::*;

verus! {

/// The path of `name` inside `directory`: the two joined by a slash,
/// or plainly appended when the directory already ends in one.
pub open spec fn joined_path(directory: Seq<char>, name: Seq<char>) -> Seq<char> {
    if directory.len() > 0 && directory.last() == '/' {
        directory + name
    } else {
        directory + seq!['/'] + name
    }
}

/// Join a file name onto a directory path.
fn join_path(directory: &str, name: &str) -> (r: String)
    ensures
        r@ == joined_path(directory@, name@),
{
    if crate::text::ends_with_char(directory, '/') {
        directory.to_owned().concat(name)
    } else {
        proof {
            reveal_strlit("/");
        }
        let r = directory.to_owned().concat("/").concat(name);
        proof {
            assert(directory@ + "/"@ + name@ =~= joined_path(directory@, name@));
        }
        r
    }
}

/// The default data directory under a home directory.
pub fn get_default_directory(home: &str) -> (r: String)
    ensures
        r@ == joined_path(home@, ".local/share/net-lookup"@),
{
    join_path(home, ".local/share/net-lookup")
}

/// The registry dump inside a data directory.
pub fn get_asn_path(directory: &str) -> (r: String)
    ensures
        r@ == joined_path(directory@, "asn.dat"@),
{
    join_path(directory, "asn.dat")
}

/// The registry dump inside the default data directory.
pub fn get_default_asn_path(home: &str) -> (r: String)
    ensures
        r@ == joined_path(joined_path(home@, ".local/share/net-lookup"@), "asn.dat"@),
{
    let directory = get_default_directory(home);
    get_asn_path(directory.as_str())
}

/// The interval file inside a data directory.
pub fn get_ip2asn_path(directory: &str) -> (r: String)
    ensures
        r@ == joined_path(directory@, "ip2asn.dat"@),
{
    join_path(directory, "ip2asn.dat")
}

/// The interval file inside the default data directory.
pub fn get_default_ip2asn_path(home: &str) -> (r: String)
    ensures
        r@ == joined_path(joined_path(home@, ".local/share/net-lookup"@), "ip2asn.dat"@),
{
    let directory = get_default_directory(home);
    get_ip2asn_path(directory.as_str())
}

/// The GeoIP city database inside a data directory.
pub fn get_maxmind_path(directory: &str) -> (r: String)
    ensures
        r@ == joined_path(directory@, "maxmind-geolite2-city.mmdb"@),
{
    join_path(directory, "maxmind-geolite2-city.mmdb")
}

/// The GeoIP city database inside the default data directory.
pub fn get_default_maxmind_path(home: &str) -> (r: String)
    ensures
        r@ == joined_path(
            joined_path(home@, ".local/share/net-lookup"@),
            "maxmind-geolite2-city.mmdb"@,
        ),
{
    let directory = get_default_directory(home);
    get_maxmind_path(directory.as_str())
}

/// The pre-encoded interval file inside a data directory.
pub fn get_encoded_ip2asn_path(directory: &str) -> (r: String)
    ensures
        r@ == joined_path(directory@, "ip2asn-encoded.dat"@),
{
    join_path(directory, "ip2asn-encoded.dat")
}

/// The pre-encoded interval file inside the default data directory.
pub fn get_default_encoded_ip2asn_path(home: &str) -> (r: String)
    ensures
        r@ == joined_path(
            joined_path(home@, ".local/share/net-lookup"@),
            "ip2asn-encoded.dat"@,
        ),
{
    let directory = get_default_directory(home);
    get_encoded_ip2asn_path(directory.as_str())
}

} // verus!
