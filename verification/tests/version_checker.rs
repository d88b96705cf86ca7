use godot_asset_browser::version_checker::{Version, VersionChecker};

#[test]
fn test_version_parsing() {
    let v1 = Version::parse("1.2.3").unwrap();
    assert_eq!(v1.major, 1);
    assert_eq!(v1.minor, 2);
    assert_eq!(v1.patch, 3);

    let v2 = Version::parse("v0.1.0").unwrap();
    assert_eq!(v2.major, 0);
    assert_eq!(v2.minor, 1);
    assert_eq!(v2.patch, 0);
}

#[test]
fn test_version_parsing_invalid() {
    assert!(Version::parse("1.2").is_err());
    assert!(Version::parse("abc").is_err());
    assert!(Version::parse("1.2.3.4").is_err());
}

#[test]
fn test_version_comparison() {
    let v1 = Version::parse("1.0.0").unwrap();
    let v2 = Version::parse("1.0.1").unwrap();
    let v3 = Version::parse("1.1.0").unwrap();
    let v4 = Version::parse("2.0.0").unwrap();

    assert!(v2.is_newer_than(&v1));
    assert!(v3.is_newer_than(&v2));
    assert!(v4.is_newer_than(&v3));
    assert!(!v1.is_newer_than(&v2));
}

#[test]
fn test_version_to_string() {
    let v = Version { major: 1, minor: 2, patch: 3 };
    assert_eq!(v.to_string(), "v1.2.3");
}

#[test]
fn test_current_version() {
    let current = VersionChecker::get_current_version();
    assert!(current.is_ok());
}

#[test]
fn test_version_checker_creation() {
    let checker = VersionChecker::new();
    assert!(checker.should_check());
}

#[test]
fn test_check_interval() {
    let checker = VersionChecker::new().with_check_interval(3_600_000);
    assert_eq!(checker.check_interval, 3_600_000);
}

// Further cases

#[test]
fn test_should_check_at() {
    let mut checker = VersionChecker::new().with_check_interval(1_000);
    checker.last_check = Some(10_000);
    assert!(!checker.should_check_at(10_500));
    assert!(checker.should_check_at(11_000));
}
