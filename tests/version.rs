use std::cmp::Ordering;

use dpt::version::{Version, VersionError};

#[test]
fn test_version_from_str() {
    assert_eq!(Version::from_str("0.0.0").unwrap(), Version::new(vec![0, 0, 0]));
    assert_eq!(Version::from_str("1.2.3").unwrap(), Version::new(vec![1, 2, 3]));
    assert_eq!(
        Version::from_str("300.22.11.00").unwrap(),
        Version::new(vec![300, 22, 11, 0])
    );
    assert_eq!(Version::from_str("12.11").unwrap(), Version::new(vec![12, 11]));
    assert_eq!(Version::from_str("531").unwrap(), Version::new(vec![531]));
    assert_eq!(Version::from_str("13.1").unwrap(), Version::new(vec![13, 1]));
}

#[test]
fn test_version_cmp() {
    assert!(Version::from_str("531").unwrap() > Version::new(vec![0, 531, 0]));
    assert!(Version::new(vec![0, 1, 2]) > Version::new(vec![0, 1, 1]));
    assert!(Version::new(vec![6, 5, 4]) > Version::new(vec![0, 22, 500]));
    assert!(Version::new(vec![98, 54, 97, 100]) == Version::new(vec![98, 54, 97, 100]));
    assert!(Version::new(vec![98, 54, 97]) >= Version::new(vec![98, 54, 97]));
    assert!(Version::new(vec![0, 0, 0, 2]) < Version::new(vec![0, 0, 0, 3]));
    assert!(!(Version::new(vec![0, 0, 2]) < Version::new(vec![0, 0, 2])));
}

#[test]
pub fn test_version_invalid() {
    Version::from_str("").expect_err("Input was ''");
    Version::from_str("45a.22").expect_err("Input was '45a.22'");
}

#[test]
fn version_round_trip_through_text() {
    for v in [vec![0u32], vec![1, 2, 3], vec![4294967295, 0, 10], vec![300, 22, 11, 0]] {
        let version = Version::new(v.clone());
        let text = version.to_string();
        assert_eq!(Version::from_str(&text).unwrap(), version);
    }
    assert_eq!(Version::new(vec![300, 22, 11, 0]).to_string(), "300.22.11.0");
    assert_eq!(Version::zero().to_string(), "0");
}

#[test]
fn version_cmp_is_antisymmetric_and_transitive() {
    let a = Version::new(vec![1, 0]);
    let b = Version::new(vec![1, 1]);
    let c = Version::new(vec![2]);
    assert_eq!(a.cmp(&b), Ordering::Less);
    assert_eq!(b.cmp(&a), Ordering::Greater);
    assert_eq!(b.cmp(&c), Ordering::Less);
    assert_eq!(a.cmp(&c), Ordering::Less);
    assert_eq!(c.cmp(&a), Ordering::Greater);
}

#[test]
fn version_rejects_empty_and_non_digits() {
    assert_eq!(Version::from_str(""), Err(VersionError::Invalid));
    assert_eq!(Version::from_str("1..2"), Err(VersionError::Invalid));
    assert_eq!(Version::from_str("1.2."), Err(VersionError::Invalid));
    assert_eq!(Version::from_str("+5"), Err(VersionError::Invalid));
    assert_eq!(Version::from_str("1.-2"), Err(VersionError::Invalid));
    assert_eq!(Version::from_str("4294967296"), Err(VersionError::Invalid));
    assert!(Version::from_str("4294967295").is_ok());
}

#[test]
fn version_high_order_component_wins() {
    let a = Version::from_str("1.2.3").unwrap();
    let b = Version::from_str("0.531.0").unwrap();
    assert!(a > b);
    assert_eq!(a.cmp(&b), Ordering::Greater);
}

#[test]
fn version_shorter_compares_equal() {
    let a = Version::from_str("531").unwrap();
    let b = Version::from_str("531.0.0.0").unwrap();
    assert_eq!(a.cmp(&b), Ordering::Equal);
    assert_eq!(a.partial_cmp(&b), Some(Ordering::Equal));
    assert!(a != b);
}

#[test]
fn version_bump_increments_last() {
    let v = Version::new(vec![4, 5, 0]);
    assert_eq!(v.bump(), Version::new(vec![4, 5, 1]));
    assert_eq!(Version::new(vec![9]).bump().components(), &vec![10]);
}
