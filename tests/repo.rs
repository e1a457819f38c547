use dpt::doc::{Child, DocError, Entry, Node, Value};
use dpt::pkg::{Dependency, Package};
use dpt::repo::{
    friendly_str_to_package, get_all_available_packages, get_dependency_provider_for_packages,
    get_repositories, index_url, needs_install, newest_package_from_name, package_to_onlinepackage,
    parse_repository_index, parse_version_range, plan_install, push_onto_url,
    records_for_solution, remove_duplicates, root_dependencies, InstallPlan, InstallResult, InstallWalk,
    OnlinePackage, RepoError, VersionRange, install_result,
};
use dpt::version::Version;

fn record(name: &str, version: &str, deps: Vec<(&str, &str)>) -> OnlinePackage {
    OnlinePackage {
        name: name.to_string(),
        version: version.to_string(),
        url: format!("https://my.repo.pkg/dpt/{}.dpt", name),
        depends: deps
            .into_iter()
            .map(|(n, v)| Dependency { name: n.to_string(), version: v.to_string() })
            .collect(),
    }
}

fn prop(name: &str, value: &str) -> Entry {
    Entry { name: Some(name.to_string()), value: Value::Str(value.to_string()) }
}

fn arg(value: &str) -> Entry {
    Entry { name: None, value: Value::Str(value.to_string()) }
}

#[test]
fn parse_repository_index_1() {
    let index = vec![
        Node {
            name: "package".to_string(),
            entries: vec![prop("name", "test"), prop("version", "9.11.14"), prop("path", "/test.dpt")],
            children: None,
        },
        Node {
            name: "package".to_string(),
            entries: vec![prop("name", "example"), prop("version", "1.2.3"), prop("path", "my-pkg.dpt")],
            children: Some(vec![
                Child { name: "depends".to_string(), entries: vec![arg("example1")], children: None },
                Child {
                    name: "depends".to_string(),
                    entries: vec![arg("example2"), prop("version", "^10.2.0")],
                    children: None,
                },
            ]),
        },
    ];
    let x = parse_repository_index(&index, "https://my.repo.here/dpt").unwrap();
    let expected: Vec<OnlinePackage> = vec![
        OnlinePackage {
            name: "test".to_string(),
            version: "9.11.14".to_string(),
            url: "https://my.repo.here/dpt/test.dpt".to_string(),
            depends: Vec::<Dependency>::new(),
        },
        OnlinePackage {
            name: "example".to_string(),
            version: "1.2.3".to_string(),
            url: "https://my.repo.here/dpt/my-pkg.dpt".to_string(),
            depends: vec![
                Dependency { name: "example1".to_string(), version: "".to_string() },
                Dependency { name: "example2".to_string(), version: "^10.2.0".to_string() },
            ],
        },
    ];
    assert_eq!(x, expected);
}

#[test]
fn index_errors_and_ignored_nodes() {
    let missing = vec![Node {
        name: "package".to_string(),
        entries: vec![prop("name", "a"), prop("version", "1")],
        children: None,
    }];
    assert_eq!(parse_repository_index(&missing, "https://r"), Err(DocError::MissingProperty));
    let not_string = vec![Node {
        name: "package".to_string(),
        entries: vec![
            Entry { name: Some("name".to_string()), value: Value::Int(3) },
            prop("version", "1"),
            prop("path", "a.dpt"),
        ],
        children: None,
    }];
    assert_eq!(parse_repository_index(&not_string, "https://r"), Err(DocError::NotAString));
    let other = vec![Node { name: "comment".to_string(), entries: vec![], children: None }];
    assert_eq!(parse_repository_index(&other, "https://r"), Ok(vec![]));
    let absolute = vec![Node {
        name: "package".to_string(),
        entries: vec![prop("name", "a"), prop("version", "1"), prop("path", "https://elsewhere/a.dpt")],
        children: None,
    }];
    let r = parse_repository_index(&absolute, "https://r").unwrap();
    assert_eq!(r[0].url, "https://elsewhere/a.dpt");
}

#[test]
fn url_join_inserts_one_slash() {
    assert_eq!(push_onto_url("https://r/", "/a"), "https://r//a");
    assert_eq!(push_onto_url("https://r", "a"), "https://r/a");
    assert_eq!(push_onto_url("https://r/", "a"), "https://r/a");
    assert_eq!(push_onto_url("https://r", "/a"), "https://r/a");
    assert_eq!(index_url("https://r"), "https://r/index.kdl");
}

#[test]
fn all_packages_in_repository_order() {
    let first = vec![Node {
        name: "package".to_string(),
        entries: vec![prop("name", "a"), prop("version", "1"), prop("path", "a.dpt")],
        children: None,
    }];
    let second = vec![Node {
        name: "package".to_string(),
        entries: vec![prop("name", "a"), prop("version", "1"), prop("path", "a.dpt")],
        children: None,
    }];
    let all = get_all_available_packages(&vec![
        ("https://one".to_string(), first),
        ("https://two/".to_string(), second),
    ])
    .unwrap();
    assert_eq!(all.len(), 2);
    assert_eq!(all[0].url, "https://one/a.dpt");
    assert_eq!(all[1].url, "https://two/a.dpt");
}

#[test]
fn repositories_are_non_blank_lines() {
    let repos = get_repositories("https://a\n\n   \r\nhttps://b\r\n\thttps://c \nhttps://d");
    assert_eq!(repos, vec!["https://a", "https://b", "\thttps://c ", "https://d"]);
    assert!(get_repositories("").is_empty());
}

#[test]
fn resolution_inputs_of_an_index() {
    let packages = vec![
        record("1", "1.2.3", vec![]),
        record("2", "4.5.6", vec![("1", ">=1.0.0")]),
        record("goal", "7.8.9", vec![("2", ">4.5.0")]),
    ];
    let table = get_dependency_provider_for_packages(&packages).unwrap();
    assert_eq!(table.len(), 3);
    assert_eq!(table[2].name, "goal");
    assert_eq!(table[2].version, Version::new(vec![7, 8, 9]));
    assert_eq!(table[1].dependencies[0].0, "1");
    match &table[1].dependencies[0].1 {
        VersionRange::HigherThan(v) => assert_eq!(*v, Version::new(vec![1, 0, 0])),
        other => panic!("unexpected range {:?}", other),
    }
    match &table[2].dependencies[0].1 {
        VersionRange::HigherThan(v) => assert_eq!(*v, Version::new(vec![4, 5, 1])),
        other => panic!("unexpected range {:?}", other),
    }
    let bad = vec![record("x", "1.0", vec![("y", "^1.0")])];
    assert_eq!(get_dependency_provider_for_packages(&bad).unwrap_err(), RepoError::InvalidVersion);

    let solution = vec![
        ("world".to_string(), Version::new(vec![1, 0, 0])),
        ("goal".to_string(), Version::new(vec![7, 8, 9])),
        ("2".to_string(), Version::new(vec![4, 5, 6])),
        ("1".to_string(), Version::new(vec![1, 2, 3])),
    ];
    let resolved = records_for_solution(&solution, &packages).unwrap();
    assert_eq!(resolved.len(), 3);
    for pkg in &resolved {
        assert!(packages.contains(pkg));
    }
    let missing = vec![("3".to_string(), Version::new(vec![1]))];
    assert_eq!(records_for_solution(&missing, &packages).unwrap_err(), RepoError::NotFound);
}

#[test]
fn version_ranges() {
    assert!(matches!(parse_version_range("").unwrap(), VersionRange::Full));
    match parse_version_range("1.2").unwrap() {
        VersionRange::Singleton(v) => assert_eq!(v, Version::new(vec![1, 2])),
        other => panic!("unexpected range {:?}", other),
    }
    assert_eq!(parse_version_range(">=x").unwrap_err(), RepoError::InvalidVersion);
    assert_eq!(parse_version_range(">4294967295").unwrap_err(), RepoError::InvalidVersion);
}

#[test]
fn root_dependencies_of_selection() {
    let selected = vec![
        Package::new("gcc".to_string(), "".to_string()),
        Package::new("fish".to_string(), "4.0.0".to_string()),
    ];
    let deps = root_dependencies(&selected).unwrap();
    assert!(matches!(deps[0].1, VersionRange::Full));
    match &deps[1].1 {
        VersionRange::Singleton(v) => assert_eq!(*v, Version::new(vec![4, 0, 0])),
        other => panic!("unexpected range {:?}", other),
    }
    let bad = vec![Package::new("fish".to_string(), "four".to_string())];
    assert_eq!(root_dependencies(&bad).unwrap_err(), RepoError::InvalidVersion);
}

#[test]
fn newest_and_exact_lookups() {
    let index = vec![
        record("gcc", "13.0.0", vec![]),
        record("fish", "3.5.0", vec![("ncurses", "")]),
        record("fish", "4.0.0", vec![("ncurses", "")]),
        record("ncurses", "6.4.0", vec![]),
    ];
    assert_eq!(newest_package_from_name("gcc", &index).unwrap().version, "13.0.0");
    assert_eq!(newest_package_from_name("fish", &index).unwrap().version, "4.0.0");
    assert_eq!(newest_package_from_name("zsh", &index).unwrap_err(), RepoError::NotFound);
    let fish = Package::new("fish".to_string(), "3.5.0".to_string());
    assert_eq!(package_to_onlinepackage(&fish, &index).unwrap(), index[1]);
    let fish_padded = Package::new("fish".to_string(), "3.5.0.0".to_string());
    assert_eq!(package_to_onlinepackage(&fish_padded, &index).unwrap_err(), RepoError::NotFound);
    let broken = vec![record("fish", "x", vec![])];
    assert_eq!(newest_package_from_name("fish", &broken).unwrap_err(), RepoError::InvalidVersion);
}

#[test]
fn newest_keeps_first_of_equal_versions() {
    let mut a = record("fish", "4.0.0", vec![]);
    a.url = "first".to_string();
    let mut b = record("fish", "4.0.0", vec![]);
    b.url = "second".to_string();
    assert_eq!(newest_package_from_name("fish", &vec![a, b]).unwrap().url, "first");
}

#[test]
fn friendly_names() {
    let index = vec![record("fish", "3.5.0", vec![]), record("fish", "4.0.0", vec![])];
    assert_eq!(
        friendly_str_to_package("fish-3.5.0", &index).unwrap(),
        Package::new("fish".to_string(), "3.5.0".to_string())
    );
    assert_eq!(
        friendly_str_to_package("fish", &index).unwrap(),
        Package::new("fish".to_string(), "4.0.0".to_string())
    );
    assert_eq!(friendly_str_to_package("fish-9.9", &index).unwrap_err(), RepoError::NotFound);
}

#[test]
fn duplicates_removed_in_order() {
    let a = record("a", "1", vec![]);
    let b = record("b", "1", vec![]);
    let r = remove_duplicates(vec![a.clone(), b.clone(), a.clone(), b.clone()]);
    assert_eq!(r, vec![a, b]);
}

#[test]
fn install_plans() {
    assert_eq!(plan_install(false, false, false), InstallPlan::Fetch);
    assert_eq!(plan_install(true, true, false), InstallPlan::Ignore);
    assert_eq!(plan_install(true, true, true), InstallPlan::Replace);
    assert_eq!(plan_install(true, false, false), InstallPlan::Replace);
    assert_eq!(install_result(InstallPlan::Ignore), InstallResult::Ignored);
    assert_eq!(install_result(InstallPlan::Fetch), InstallResult::Installed);
    let a = record("a", "1", vec![]);
    let done = vec![(a.clone(), InstallResult::Installed)];
    assert!(!needs_install(&done, &a));
    assert!(needs_install(&done, &record("b", "1", vec![])));
}

#[test]
fn online_package_text() {
    let p = record("a", "1", vec![]);
    assert_eq!(p.to_string(), "OnlinePackage: a 1 https://my.repo.pkg/dpt/a.dpt");
    assert_eq!(p.to_package(), Package::new("a".to_string(), "1".to_string()));
}

#[test]
fn install_walk_depth_first_once() {
    let a = record("a", "1", vec![("b", ""), ("c", "")]);
    let b = record("b", "1", vec![("c", "")]);
    let c = record("c", "1", vec![]);
    let mut walk = InstallWalk::new();
    let first = walk.begin(&a);
    assert_eq!(first, a);
    walk.installed(InstallResult::Installed, vec![b.clone(), c.clone()]);
    let second = walk.next().unwrap();
    assert_eq!(second, b);
    walk.installed(InstallResult::Ignored, vec![c.clone()]);
    let third = walk.next().unwrap();
    assert_eq!(third, c);
    walk.installed(InstallResult::Installed, vec![]);
    assert!(walk.next().is_none());
    let order: Vec<String> = walk.done().iter().map(|(p, _)| p.name.clone()).collect();
    assert_eq!(order, vec!["a", "b", "c"]);
    assert_eq!(walk.done()[1].1, InstallResult::Ignored);
}
