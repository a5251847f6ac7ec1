//! The data updater's configuration, assembled from already-parsed
//! command line values.

use vstd::prelude::*;

verus! {

/// What the data updater is asked to do: where to put the files and
/// which of them to leave alone.
#[derive(Debug)]
pub struct UpdaterConfig {
    pub target_directory: Option<String>,
    pub exclude_asn: bool,
    pub exclude_ip2asn: bool,
    pub exclude_maxmind: bool,
    pub maxmind_key: Option<String>,
    pub skip_optimize: bool,
}

/// Assemble the updater's configuration from the command line values.
pub fn load_config(
    target_directory: Option<String>,
    exclude_asn: bool,
    exclude_ip2asn: bool,
    exclude_maxmind: bool,
    maxmind_key: Option<String>,
    skip_optimize: bool,
) -> (c: UpdaterConfig)
    ensures
        c.target_directory == target_directory,
        c.exclude_asn == exclude_asn,
        c.exclude_ip2asn == exclude_ip2asn,
        c.exclude_maxmind == exclude_maxmind,
        c.maxmind_key == maxmind_key,
        c.skip_optimize == skip_optimize,
{
    UpdaterConfig {
        target_directory,
        exclude_asn,
        exclude_ip2asn,
        exclude_maxmind,
        maxmind_key,
        skip_optimize,
    }
}

} // verus!
