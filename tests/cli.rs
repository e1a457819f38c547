use dpt::cli::{command_requires_root, gen_index_record, is_package_archive, parse_run_args, ArgMode};
use dpt::pkg::{Dependency, PackageConfig};

fn strings(v: &[&str]) -> Vec<String> {
    v.iter().map(|s| s.to_string()).collect()
}

#[test]
fn root_needed_except_for_generators() {
    assert!(command_requires_root("rebuild"));
    assert!(command_requires_root("run"));
    assert!(!command_requires_root("gen-index"));
    assert!(!command_requires_root("gen-pkg"));
}

#[test]
fn run_multi_arguments() {
    let r = parse_run_args(&strings(&["fish", "ncurses", "--cmd", "bash", "--", "-c", "echo hi"]));
    assert_eq!(r.packages, strings(&["fish", "ncurses"]));
    assert_eq!(r.cmd, Some("bash".to_string()));
    assert_eq!(r.child_args, strings(&["-c", "echo hi"]));
    assert_eq!(r.mode, ArgMode::Child);
    let plain = parse_run_args(&strings(&["fish"]));
    assert_eq!(plain.cmd, None);
    assert!(plain.child_args.is_empty());
}

#[test]
fn gen_index_records_of_two_archives() {
    let a = PackageConfig {
        name: "fish".to_string(),
        version: "4.0.0".to_string(),
        depends: vec![Dependency { name: "ncurses".to_string(), version: ">=6.0".to_string() }],
        glue: vec![],
    };
    let b = PackageConfig { name: "ncurses".to_string(), version: "6.4.0".to_string(), depends: vec![], glue: vec![] };
    let ra = gen_index_record("./fish-4.0.0.dpt", &a);
    let rb = gen_index_record("sub/ncurses-6.4.0.dpt", &b);
    assert_eq!(ra.url, "fish-4.0.0.dpt");
    assert_eq!(ra.name, "fish");
    assert_eq!(ra.depends, a.depends);
    assert_eq!(rb.url, "sub/ncurses-6.4.0.dpt");
    assert_eq!(rb.version, "6.4.0");
    assert!(is_package_archive("./fish-4.0.0.dpt"));
    assert!(!is_package_archive("./.dpt"));
    assert!(!is_package_archive("./fish.tar"));
}
