//! The older pool layout of package entries.
use vstd::prelude::*;
use crate::pkg::Package;
use crate::store::{entry_name, package_entry_name};
use crate::text::{join_path, join_path_str};

verus! {

/// The pool directory used when none is configured.
pub const DEFAULT_POOL_DIR: &'static str = "/fpkg/pool";

/// The pool directory: the configured one, else the default.
pub fn get_pool_location(configured: Option<String>) -> (r: String)
    ensures
        r@ == match configured {
            Some(x) => x@,
            None => DEFAULT_POOL_DIR@,
        },
{
    match configured {
        Some(x) => x,
        None => String::from_str(DEFAULT_POOL_DIR),
    }
}

/// A package's directory in the pool.
pub fn package_to_pool_location(pool_dir: &str, pkg: &Package) -> (r: String)
    ensures
        r@ == join_path(pool_dir@, entry_name(pkg.name@, pkg.version@)),
{
    let e = package_entry_name(pkg);
    join_path_str(pool_dir, e.as_str())
}

} // verus!
