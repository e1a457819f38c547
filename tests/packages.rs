use dpt::pkg::{
    index_or_err_str, string_to_package, Dependency, Glue, Package, PackageConfig, PackageError,
    PieceError,
};

#[test]
fn string_to_package_1() {
    assert_eq!(
        string_to_package("a-b-c-d-e-1.2.3").unwrap(),
        Package { name: "a-b-c-d-e".to_string(), version: "1.2.3".to_string() }
    );
    assert_eq!(
        string_to_package("testing-123-0.4.3").unwrap(),
        Package { name: "testing-123".to_string(), version: "0.4.3".to_string() }
    );
}

#[test]
fn string_without_version_is_a_name() {
    assert_eq!(
        string_to_package("fish").unwrap(),
        Package { name: "fish".to_string(), version: "".to_string() }
    );
    assert_eq!(
        string_to_package("gtk-rs").unwrap(),
        Package { name: "gtk-rs".to_string(), version: "".to_string() }
    );
    assert_eq!(string_to_package("1.2.3"), Err(PackageError::EmptyName));
    assert_eq!(string_to_package(""), Err(PackageError::EmptyName));
}

#[test]
fn package_display_text() {
    let p = Package::new("fish".to_string(), "4.0.0".to_string());
    assert_eq!(p.to_string(), "Package: fish 4.0.0");
}

#[test]
fn pieces_by_index() {
    let pieces = vec!["a", "b"];
    assert_eq!(index_or_err_str(&pieces, 1), Ok("b".to_string()));
    assert_eq!(index_or_err_str(&pieces, 2), Err(PieceError::OutOfRange));
}

#[test]
fn package_config_equality_ignores_glue() {
    let a = PackageConfig {
        name: "abcd".to_string(),
        version: "145.54.12".to_string(),
        depends: vec![Dependency { name: "coreutils".to_string(), version: "".to_string() }],
        glue: vec![Glue::Bin],
    };
    let mut b = a.clone();
    b.glue = vec![Glue::Glob(vec!["/usr/lib/systemd/system/*.service".to_string()])];
    assert!(a == b);
    b.depends[0].version = ">=1.0.0".to_string();
    assert!(a != b);
}
