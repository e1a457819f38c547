//! A declarative package manager's core: versions, package records, the
//! repository index, the store layout, environment composition, the
//! sandbox's decisions, and the base skeleton.
pub mod base;
pub mod cli;
pub mod doc;
pub mod dpt_file;
pub mod env;
pub mod fpkg_file;
pub mod info;
pub mod mounts;
pub mod pkg;
pub mod pool;
pub mod repo;
pub mod run;
pub mod store;
pub mod text;
pub mod uninstall;
pub mod version;
