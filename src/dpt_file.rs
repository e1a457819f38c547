//! The manifest's data model and where the manifest and lockfile live.
use vstd::prelude::*;
use crate::pkg::Package;
use crate::text::{join_path, join_path_str};

verus! {

/// A user account to create in the base.
#[derive(Debug, Clone)]
pub struct User {
    pub username: String,
    pub password: String,
    pub uid: u64,
    pub gid: u64,
    pub gecos: String,
    pub home: String,
    pub shell: String,
}

/// A group to create in the base.
#[derive(Debug, Clone)]
pub struct Group {
    pub groupname: String,
    pub gid: u64,
    pub members: Vec<String>,
}

/// The manifest (or, with resolved packages, the lockfile).
#[derive(Debug, Clone)]
pub struct DptFile {
    pub packages: Vec<Package>,
    pub users: Vec<User>,
    pub groups: Vec<Group>,
    /// Service targets and their units, passed through to the init system.
    pub services: Option<Vec<(String, Vec<String>)>>,
}

/// Where the manifest lives in the configuration directory.
pub fn get_dpt_file_location(dpt_dir: &str) -> (r: String)
    ensures
        r@ == join_path(dpt_dir@, "dpt.ron"@),
{
    join_path_str(dpt_dir, "dpt.ron")
}

/// Where the lockfile lives in the configuration directory.
pub fn get_dpt_lock_location(dpt_dir: &str) -> (r: String)
    ensures
        r@ == join_path(dpt_dir@, "dpt.lock"@),
{
    join_path_str(dpt_dir, "dpt.lock")
}

} // verus!
