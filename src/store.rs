//! The store: where package entries live and which of them count.
use vstd::prelude::*;
use crate::pkg::{clone_dependencies, deps_view, Package, PackageConfig};
use crate::repo::{records, OnlinePackage, OnlineRecord};
use crate::text::{join_path, join_path_str, push_char};

verus! {

/// The configuration directory used when none is configured.
pub const DEFAULT_DPT_DIR: &'static str = "/dpt";

/// The directory inside each store entry that holds its metadata.
pub const META_DIR: &'static str = "dpt";

/// The configuration directory: the configured one, else `/dpt`.
pub fn get_dpt_dir(configured: Option<String>) -> (r: String)
    ensures
        r@ == match configured {
            Some(x) => x@,
            None => DEFAULT_DPT_DIR@,
        },
{
    match configured {
        Some(x) => x,
        None => String::from_str(DEFAULT_DPT_DIR),
    }
}

/// The store's root in the configuration directory.
pub fn get_store_location(dpt_dir: &str) -> (r: String)
    ensures
        r@ == join_path(dpt_dir@, "store"@),
{
    join_path_str(dpt_dir, "store")
}

/// The name of a package's store entry: `<name>-<version>`.
pub open spec fn entry_name(name: Seq<char>, version: Seq<char>) -> Seq<char> {
    name + seq!['-'] + version
}

/// `<name>-<version>` of a package.
pub fn package_entry_name(pkg: &Package) -> (r: String)
    ensures
        r@ == entry_name(pkg.name@, pkg.version@),
{
    let mut r = String::from_str(pkg.name.as_str());
    push_char(&mut r, '-');
    r.append(pkg.version.as_str());
    r
}

/// A package's entry in the store.
pub fn package_to_store_location(store: &str, pkg: &Package) -> (r: String)
    ensures
        r@ == join_path(store@, entry_name(pkg.name@, pkg.version@)),
{
    let e = package_entry_name(pkg);
    join_path_str(store, e.as_str())
}

/// The completion sentinel inside a store entry.
pub fn sentinel_location(entry: &str) -> (r: String)
    ensures
        r@ == join_path(join_path(entry@, META_DIR@), ".done"@),
{
    let meta = join_path_str(entry, META_DIR);
    join_path_str(meta.as_str(), ".done")
}

/// The package configuration inside a store entry.
pub fn config_location(entry: &str) -> (r: String)
    ensures
        r@ == join_path(join_path(entry@, META_DIR@), "pkg.ron"@),
{
    let meta = join_path_str(entry, META_DIR);
    join_path_str(meta.as_str(), "pkg.ron")
}

/// The record a store entry stands for, where its configuration could be read.
pub open spec fn entry_record(url: Seq<char>, c: PackageConfig) -> OnlineRecord {
    OnlineRecord { name: c.name@, version: c.version@, url, depends: deps_view(c.depends@) }
}

/// The records of the store entries whose configuration could be read, in order.
pub open spec fn readable_entries(es: Seq<(String, Option<PackageConfig>)>) -> Seq<OnlineRecord>
    decreases es.len(),
{
    if es.len() == 0 {
        Seq::empty()
    } else {
        let rest = readable_entries(es.drop_last());
        match es.last().1 {
            Some(c) => rest.push(entry_record(es.last().0@, c)),
            None => rest,
        }
    }
}

/// The records of every store entry: `entries` pairs each entry's path with
/// its configuration, `None` where that was missing or malformed; such
/// entries are skipped.
pub fn get_installed_packages_without_dpt_file(entries: &Vec<(String, Option<PackageConfig>)>) -> (r: Vec<OnlinePackage>)
    ensures
        records(r@) == readable_entries(entries@),
{
    let mut out: Vec<OnlinePackage> = Vec::new();
    let mut i: usize = 0;
    while i < entries.len()
        invariant
            i <= entries.len(),
            records(out@) == readable_entries(entries@.take(i as int)),
        decreases entries.len() - i,
    {
        let ghost t = entries@.take(i as int + 1);
        assert(t.drop_last() =~= entries@.take(i as int));
        let e = &entries[i];
        match &e.1 {
            Some(c) => {
                out.push(OnlinePackage {
                    name: c.name.clone(),
                    version: c.version.clone(),
                    url: e.0.clone(),
                    depends: clone_dependencies(&c.depends),
                });
                assert(records(out@) =~= readable_entries(t));
            },
            None => {},
        }
        i += 1;
    }
    assert(entries@.take(entries.len() as int) =~= entries@);
    out
}

/// The identities a lockfile lists.
pub open spec fn locked_identities(locked: Seq<Package>) -> Seq<(Seq<char>, Seq<char>)> {
    locked.map_values(|p: Package| p@)
}

/// The installed records that the lockfile lists, in store order.
pub open spec fn locked_records(installed: Seq<OnlineRecord>, locked: Seq<Package>) -> Seq<OnlineRecord> {
    installed.filter(|r: OnlineRecord| locked_identities(locked).contains((r.name, r.version)))
}

/// Whether a lockfile lists an identity.
fn is_locked(locked: &Vec<Package>, name: &String, version: &String) -> (r: bool)
    ensures
        r == locked_identities(locked@).contains((name@, version@)),
{
    let mut i: usize = 0;
    while i < locked.len()
        invariant
            i <= locked.len(),
            forall|j: int| 0 <= j < i ==> locked@[j]@ != (name@, version@),
        decreases locked.len() - i,
    {
        if locked[i].name == *name && locked[i].version == *version {
            assert(locked_identities(locked@)[i as int] == (name@, version@));
            return true;
        }
        i += 1;
    }
    proof {
        if locked_identities(locked@).contains((name@, version@)) {
            let j = choose|j: int| 0 <= j < locked_identities(locked@).len() && locked_identities(locked@)[j] == (name@, version@);
            assert(locked@[j]@ == (name@, version@));
        }
    }
    false
}

/// The installed packages that the lockfile lists.
pub fn get_installed_packages(installed: &Vec<OnlinePackage>, locked: &Vec<Package>) -> (r: Vec<OnlinePackage>)
    ensures
        records(r@) == locked_records(records(installed@), locked@),
{
    let ghost pred = |r: OnlineRecord| locked_identities(locked@).contains((r.name, r.version));
    let mut out: Vec<OnlinePackage> = Vec::new();
    let mut i: usize = 0;
    while i < installed.len()
        invariant
            i <= installed.len(),
            pred == (|r: OnlineRecord| locked_identities(locked@).contains((r.name, r.version))),
            records(out@) == records(installed@).take(i as int).filter(pred),
        decreases installed.len() - i,
    {
        proof {
            reveal(Seq::filter);
            let t = records(installed@).take(i as int + 1);
            assert(t.drop_last() =~= records(installed@).take(i as int));
            assert(t.last() == installed@[i as int]@);
        }
        let p = &installed[i];
        if is_locked(locked, &p.name, &p.version) {
            out.push(p.duplicate());
            assert(records(out@) =~= records(installed@).take(i as int).filter(pred).push(p@));
        }
        i += 1;
    }
    assert(records(installed@).take(installed.len() as int) =~= records(installed@));
    out
}

} // verus!
