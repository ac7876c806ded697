use cargo_version_info::version::{
    compare_versions, format_tag, format_version, increment_major, increment_minor,
    increment_patch, parse_version,
};

#[test]
fn parse_plain_and_prefixed_versions() {
    assert_eq!(parse_version("0.1.2").unwrap(), (0, 1, 2));
    assert_eq!(parse_version("v10.20.30").unwrap(), (10, 20, 30));
    assert_eq!(parse_version("V1.0.0").unwrap(), (1, 0, 0));
    assert_eq!(parse_version("4294967295.0.1").unwrap(), (4294967295, 0, 1));
}

#[test]
fn parse_rejects_malformed_versions() {
    for bad in ["invalid", "1.2", "1.2.3.4", "1..2", "1.2.x", "4294967296.0.0", "", "vv1.2.3", "1.2.3-alpha"] {
        let err = parse_version(bad).unwrap_err();
        assert!(err.message().contains(bad));
    }
}

#[test]
fn formatting_and_increments() {
    assert_eq!(format_version(1, 2, 3), "1.2.3");
    assert_eq!(format_tag(0, 0, 10), "v0.0.10");
    assert_eq!(increment_major(1, 2, 3), (2, 0, 0));
    assert_eq!(increment_minor(1, 2, 3), (1, 3, 0));
    assert_eq!(increment_patch(1, 2, 3), (1, 2, 4));
    let (a, b, c) = parse_version(&format_version(123, 0, 4567)).unwrap();
    assert_eq!((a, b, c), (123, 0, 4567));
}

#[test]
fn comparisons() {
    assert_eq!(compare_versions("0.2.0", "0.1.0").unwrap(), Some(true));
    assert_eq!(compare_versions("0.1.0", "0.2.0").unwrap(), Some(false));
    assert_eq!(compare_versions("v1.0.0", "1.0.0").unwrap(), None);
    assert_eq!(compare_versions("1.10.0", "1.9.9").unwrap(), Some(true));
    assert!(compare_versions("x", "1.0.0").is_err());
    assert!(compare_versions("1.0.0", "x").is_err());
}
