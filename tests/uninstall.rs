use dpt::pkg::{Dependency, Package};
use dpt::repo::OnlinePackage;
use dpt::uninstall::{get_dependency_count_for_packages, uninstall_package_and_deps, UninstallError};

fn record(name: &str, deps: Vec<&str>) -> OnlinePackage {
    OnlinePackage {
        name: name.to_string(),
        version: "1.0.0".to_string(),
        url: format!("/dpt/store/{}-1.0.0", name),
        depends: deps
            .into_iter()
            .map(|n| Dependency { name: n.to_string(), version: "".to_string() })
            .collect(),
    }
}

#[test]
fn depended_package_is_kept() {
    let gcc = record("gcc", vec![]);
    let binutils = record("binutils", vec!["gcc"]);
    let packages = vec![gcc.clone(), binutils.clone()];
    let closures = vec![vec![gcc.clone()], vec![binutils.clone(), gcc.clone()]];
    let counts = get_dependency_count_for_packages(&packages, &vec![false, true], &closures).unwrap();
    assert_eq!(counts[0].depends_count, 1);
    assert_eq!(counts[0].dependers, vec![binutils.clone()]);
    assert_eq!(counts[1].depends_count, 0);
    let target = Package::new("gcc".to_string(), "1.0.0".to_string());
    match uninstall_package_and_deps(&counts, Some(&target)) {
        Err(UninstallError::DependedUpon(d)) => assert_eq!(d[0].name, "binutils"),
        other => panic!("unexpected {:?}", other),
    }
    assert!(uninstall_package_and_deps(&counts, None).unwrap().is_empty());
}

#[test]
fn unneeded_packages_are_swept() {
    let a = record("a", vec!["b"]);
    let b = record("b", vec![]);
    let c = record("c", vec![]);
    let packages = vec![a.clone(), b.clone(), c.clone()];
    let closures = vec![vec![a.clone(), b.clone()], vec![b.clone()], vec![c.clone()]];
    let counts = get_dependency_count_for_packages(&packages, &vec![false, false, true], &closures).unwrap();
    let target = Package::new("a".to_string(), "1.0.0".to_string());
    let removed = uninstall_package_and_deps(&counts, Some(&target)).unwrap();
    assert_eq!(removed, vec![Package::new("a".to_string(), "1.0.0".to_string())]);
    let missing = Package::new("z".to_string(), "1.0.0".to_string());
    assert!(matches!(uninstall_package_and_deps(&counts, Some(&missing)), Err(UninstallError::NotInstalled)));
    let unknown = vec![vec![record("q", vec![])], vec![], vec![]];
    assert!(matches!(
        get_dependency_count_for_packages(&packages, &vec![false, false, false], &unknown),
        Err(UninstallError::UnknownDependency)
    ));
}
