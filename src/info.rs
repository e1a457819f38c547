//! Per-package bookkeeping outside the store: the manual-install marks.
use vstd::prelude::*;
use crate::pkg::Package;
use crate::store::{entry_name, package_entry_name};
use crate::text::{join_path, join_path_str};

verus! {

/// The bookkeeping directory used when none is configured.
pub const DEFAULT_INFO_DIR: &'static str = "/fpkg/info";

/// The bookkeeping directory: the configured one, else the default.
pub fn get_info_location(configured: Option<String>) -> (r: String)
    ensures
        r@ == match configured {
            Some(x) => x@,
            None => DEFAULT_INFO_DIR@,
        },
{
    match configured {
        Some(x) => x,
        None => String::from_str(DEFAULT_INFO_DIR),
    }
}

/// A package's bookkeeping directory.
pub fn package_to_info_location(info_dir: &str, pkg: &Package) -> (r: String)
    ensures
        r@ == join_path(info_dir@, entry_name(pkg.name@, pkg.version@)),
{
    let e = package_entry_name(pkg);
    join_path_str(info_dir, e.as_str())
}

/// The file whose presence marks a package as installed by hand.
pub fn manually_installed_marker(info_dir: &str, pkg: &Package) -> (r: String)
    ensures
        r@ == join_path(join_path(info_dir@, entry_name(pkg.name@, pkg.version@)), "manually_installed"@),
{
    let loc = package_to_info_location(info_dir, pkg);
    join_path_str(loc.as_str(), "manually_installed")
}

} // verus!
