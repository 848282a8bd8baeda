use xmahjong::version::{parse_u32_text, version_is_newer, version_numbers_of};

#[test]
fn newer_versions_are_detected_component_by_component() {
    assert!(version_is_newer("1.2.10", "1.2.9"));
    assert!(version_is_newer("2.0", "1.99.99"));
    assert!(version_is_newer("1.0.1", "1.0"));
    assert!(!version_is_newer("1.2.9", "1.2.10"));
    assert!(!version_is_newer("10.0", "10.0"));
}

// Missing components count as zero.
#[test]
fn trailing_zero_components_are_equal() {
    assert!(!version_is_newer("1.2", "1.2.0"));
    assert!(!version_is_newer("1.2.0", "1.2"));
}

// Parts that are not numbers are skipped before comparing.
#[test]
fn non_numeric_parts_are_skipped() {
    assert_eq!(version_numbers_of("v1.3.2"), vec![3, 2]);
    assert_eq!(version_numbers_of("1..x.4"), vec![1, 4]);
    assert_eq!(version_numbers_of(""), Vec::<u32>::new());
    assert!(version_is_newer("v1.3", "1.2"));
}

#[test]
fn numbers_parse_as_u32_does() {
    assert_eq!(parse_u32_text("42"), Some(42));
    assert_eq!(parse_u32_text("+7"), Some(7));
    assert_eq!(parse_u32_text("007"), Some(7));
    assert_eq!(parse_u32_text("4294967295"), Some(4294967295));
    assert_eq!(parse_u32_text("4294967296"), None);
    assert_eq!(parse_u32_text("-1"), None);
    assert_eq!(parse_u32_text("+"), None);
    assert_eq!(parse_u32_text(""), None);
    assert_eq!(parse_u32_text("1a"), None);
    assert_eq!(parse_u32_text(" 1"), None);
}
