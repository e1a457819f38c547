use dpt::info::{get_info_location, manually_installed_marker, package_to_info_location};
use dpt::pkg::{Dependency, Package, PackageConfig};
use dpt::pool::{get_pool_location, package_to_pool_location};
use dpt::repo::OnlinePackage;
use dpt::store::{
    config_location, get_dpt_dir, get_installed_packages, get_installed_packages_without_dpt_file,
    get_store_location, package_to_store_location, sentinel_location,
};

fn config(name: &str, version: &str) -> PackageConfig {
    PackageConfig {
        name: name.to_string(),
        version: version.to_string(),
        depends: vec![Dependency { name: "ncurses".to_string(), version: "".to_string() }],
        glue: vec![],
    }
}

#[test]
fn store_paths() {
    assert_eq!(get_dpt_dir(None), "/dpt");
    assert_eq!(get_dpt_dir(Some("/srv/dpt".to_string())), "/srv/dpt");
    let store = get_store_location("/dpt");
    assert_eq!(store, "/dpt/store");
    let fish = Package::new("fish".to_string(), "4.0.0".to_string());
    let entry = package_to_store_location(&store, &fish);
    assert_eq!(entry, "/dpt/store/fish-4.0.0");
    assert_eq!(sentinel_location(&entry), "/dpt/store/fish-4.0.0/dpt/.done");
    assert_eq!(config_location(&entry), "/dpt/store/fish-4.0.0/dpt/pkg.ron");
}

#[test]
fn info_and_pool_paths() {
    let fish = Package::new("fish".to_string(), "4.0.0".to_string());
    assert_eq!(get_info_location(None), "/fpkg/info");
    assert_eq!(package_to_info_location("/fpkg/info", &fish), "/fpkg/info/fish-4.0.0");
    assert_eq!(manually_installed_marker("/i", &fish), "/i/fish-4.0.0/manually_installed");
    assert_eq!(get_pool_location(Some("/p".to_string())), "/p");
    assert_eq!(get_pool_location(None), "/fpkg/pool");
    assert_eq!(package_to_pool_location("/p", &fish), "/p/fish-4.0.0");
}

#[test]
fn installed_entries_skip_unreadable() {
    let entries = vec![
        ("/dpt/store/fish-4.0.0".to_string(), Some(config("fish", "4.0.0"))),
        ("/dpt/store/broken-1".to_string(), None),
        ("/dpt/store/gcc-13.0.0".to_string(), Some(config("gcc", "13.0.0"))),
    ];
    let all = get_installed_packages_without_dpt_file(&entries);
    assert_eq!(all.len(), 2);
    assert_eq!(all[0].url, "/dpt/store/fish-4.0.0");
    assert_eq!(all[1].name, "gcc");
    assert_eq!(all[1].depends[0].name, "ncurses");
    let locked = vec![Package::new("gcc".to_string(), "13.0.0".to_string())];
    let in_lock: Vec<OnlinePackage> = get_installed_packages(&all, &locked);
    assert_eq!(in_lock, vec![all[1].clone()]);
}
