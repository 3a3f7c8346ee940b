use flua::version::{is_newer_version, parse_unsigned, parse_version, split_text, version_checker};

#[test]
fn test_parse_version_valid() {
    assert_eq!(parse_version("1.2.3"), [1, 2, 3]);
    assert_eq!(parse_version("0.0.0"), [0, 0, 0]);
    assert_eq!(parse_version("255.255.255"), [255, 255, 255]);
}

#[test]
fn test_is_newer_version_true() {
    assert!(is_newer_version("2.0.0", "1.9.9".to_string()));
    assert!(is_newer_version("1.2.5", "1.2.4".to_string()));
}

#[test]
fn test_is_newer_version_false() {
    assert!(!is_newer_version("1.2.3", "2.0.0".to_string()));
    assert!(!is_newer_version("1.2.3", "1.2.3".to_string()));
}

#[test]
fn parse_version_reads_only_three_pieces() {
    assert_eq!(parse_version("1.2.3.beta"), [1, 2, 3]);
    assert_eq!(parse_version("+1.02.3"), [1, 2, 3]);
}

#[test]
fn parse_unsigned_bounds() {
    assert_eq!(parse_unsigned("255", 255), Some(255));
    assert_eq!(parse_unsigned("256", 255), None);
    assert_eq!(parse_unsigned("", 255), None);
    assert_eq!(parse_unsigned("+", 255), None);
    assert_eq!(parse_unsigned("-1", 255), None);
    assert_eq!(parse_unsigned("4294967295", 4294967295), Some(4294967295));
    assert_eq!(parse_unsigned("99999999999999999999", 4294967295), None);
}

#[test]
fn split_text_keeps_empty_pieces() {
    assert_eq!(split_text("a..b", '.'), vec!["a", "", "b"]);
    assert_eq!(split_text("", '.'), vec![""]);
}

#[test]
fn version_checker_rules() {
    assert!(version_checker("1.2.3", "1.2.3"));
    assert!(version_checker("1.2.3", "1.2.9"));
    assert!(!version_checker("1.2.9", "1.2.3"));
    assert!(!version_checker("1.3.0", "1.2.9"));
    assert!(!version_checker("2.2.3", "1.2.3"));
    assert!(!version_checker("1.2", "1.2.3"));
    assert!(!version_checker("1.2.3", "1.2.3.4"));
    assert!(version_checker("x.2.3", "0.2.3"));
}
