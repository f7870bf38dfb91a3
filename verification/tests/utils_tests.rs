use revancex::utils::semver::{check_compatibility, compare_version_parts, max_version, parse_version_numbers};
use revancex::utils::{get_keystore_password, parse_java_major_version};
use std::cmp::Ordering;

#[test]
fn test_parse_java_major_version() {
    assert_eq!(
        parse_java_major_version("openjdk version \"21.0.12.1\" 2026-08-18 LTS"),
        Some(21)
    );
    assert_eq!(
        parse_java_major_version("java version \"17.0.2\" 2022-01-18 LTS"),
        Some(17)
    );
    assert_eq!(parse_java_major_version("java version \"1.8.0_312\""), Some(8));
    assert_eq!(parse_java_major_version("invalid version string"), None);
}

#[test]
fn java_version_from_later_line() {
    let out = "Picked up JAVA_TOOL_OPTIONS\nopenjdk version \"11.0.2\" 2019\nOpenJDK Runtime";
    assert_eq!(parse_java_major_version(out), Some(11));
    assert_eq!(parse_java_major_version("version \"x\""), None);
}

#[test]
fn test_semver_compatibility_logic() {
    assert!(check_compatibility("18.32.39", Some("18.0.0"), None));
    assert!(check_compatibility("v2.5.0", Some("2.0.0"), Some("3.0.0")));
    assert!(!check_compatibility("1.5.0", Some("2.0.0"), None));
    assert!(!check_compatibility("4.0.0", None, Some("3.5.0")));
    assert!(check_compatibility("10.0.0", Some("9.0.0"), None));
    assert!(!check_compatibility("9.0.0", Some("10.0.0"), None));
    assert!(check_compatibility("9.0.0", None, Some("10.0.0")));
    assert!(!check_compatibility("10.0.0", None, Some("9.0.0")));
}

#[test]
fn test_max_version_semver_ordering() {
    let versions = vec!["19.05.36", "19.16.39", "19.01.33", "19.11.43", "18.45.43"];
    let max = max_version(&versions);
    assert_eq!(max, Some("19.16.39".to_string()));
    let empty: Vec<&str> = vec![];
    assert_eq!(max_version(&empty), None);
}

#[test]
fn version_parts_and_order() {
    assert_eq!(parse_version_numbers("v1.2.3-beta"), vec![1, 2, 3]);
    assert_eq!(parse_version_numbers("12.19.1-release.0"), vec![12, 19, 1, 0]);
    assert_eq!(compare_version_parts(&[1, 2], &[1, 2, 0]), Ordering::Equal);
    assert_eq!(compare_version_parts(&[1, 10], &[1, 9]), Ordering::Greater);
    assert_eq!(compare_version_parts(&[], &[0, 1]), Ordering::Less);
}

#[test]
fn test_keystore_password_fallback_on_empty_or_short() {
    assert_eq!(get_keystore_password(Some("")), "revanced");
    assert_eq!(get_keystore_password(Some("   ")), "revanced");
    assert_eq!(get_keystore_password(Some("12345")), "revanced");
    assert_eq!(get_keystore_password(Some("mysecret123")), "mysecret123");
    assert_eq!(get_keystore_password(None), "revanced");
    assert_eq!(get_keystore_password(Some("  sixsix  ")), "sixsix");
}
