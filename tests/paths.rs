use flua::paths::{clean_path, join_path, secure_path, split_path, validate_path};
use std::path::PathBuf;

#[test]
fn test_secure_path_parent_dir_at_start() {
    let path = "../foo/bar";
    let result = secure_path(path);
    assert!(
        result.is_err(),
        "Should reject path starting with parent dir"
    );
}

#[test]
fn test_secure_path_only_parent_dirs() {
    let path = "../../..";
    let result = secure_path(path);
    assert!(result.is_err(), "Should reject path with only parent dirs");
}

#[test]
fn test_split_path_simple() {
    let path = "foo/bar/baz";
    let parts = split_path(path);
    assert_eq!(parts, vec!["foo", "bar", "baz"]);
}

#[test]
fn test_split_path_absolute() {
    let path = "/usr/local/bin";
    let parts = split_path(path);
    assert_eq!(parts, vec!["/", "usr", "local", "bin"]);
}

#[test]
fn test_split_path_with_dots() {
    let path = "./foo/../bar";
    let parts = split_path(path);
    assert!(parts.contains(&"..".to_string()));
}

#[test]
fn dir_test_join_path_basic() {
    let parts = vec!["foo".into(), "bar".into(), "baz".into()];
    let path = join_path(parts);
    assert!(path.ends_with("foo/bar/baz") || path.ends_with("foo\\bar\\baz"));
}

#[test]
fn test_join_path_with_absolute() {
    let parts = vec!["/".into(), "usr".into(), "bin".into()];
    let path = join_path(parts);
    assert_eq!(path, "/usr/bin");
}

#[test]
fn test_secure_path_basic() {
    let path = "foo/bar/baz";
    let result = secure_path(path).expect("Should be secure");
    assert_eq!(PathBuf::from(result), PathBuf::from("foo/bar/baz"));
}

#[test]
fn test_secure_path_removes_current_dir() {
    let path = "foo/./bar";
    let result = secure_path(path).expect("Should normalize");
    assert_eq!(PathBuf::from(result), PathBuf::from("foo/bar"));
}

#[test]
fn test_secure_path_removes_parent_dir() {
    let path = "foo/bar/../baz";
    let result = secure_path(path).expect("Should normalize");
    assert_eq!(PathBuf::from(result), PathBuf::from("foo/baz"));
}

#[test]
fn test_secure_path_multiple_parent_dirs() {
    let path = "foo/bar/baz/../../qux";
    let result = secure_path(path).expect("Should normalize");
    assert_eq!(PathBuf::from(result), PathBuf::from("foo/qux"));
}

#[test]
fn test_secure_path_with_absolute_path() {
    let path = "/foo/bar/../baz";
    let result = secure_path(path);
    assert!(result.is_err());
}

#[test]
fn test_secure_path_with_mixed_separators() {
    let path = r"foo\bar/../baz";
    let result = secure_path(path).expect("Should normalize mixed separators");
    let result = PathBuf::from(result);
    assert_eq!(result, PathBuf::from("foo/baz"));
    assert_eq!(
        result.components().collect::<Vec<_>>(),
        PathBuf::from("foo/baz").components().collect::<Vec<_>>()
    );
}

#[test]
fn os_test_join_path_basic() {
    let parts = vec!["home".to_string(), "user".to_string(), "docs".to_string()];
    let joined = join_path(parts);
    assert_eq!(joined, "home/user/docs");
}

#[test]
fn test_join_path_empty() {
    let parts: Vec<String> = vec![];
    let joined = join_path(parts);
    assert!(joined.is_empty());
}

#[test]
fn test_join_path_single() {
    let parts = vec!["folder".to_string()];
    let joined = join_path(parts);
    assert_eq!(joined, "folder");
}

#[test]
fn secure_path_error_messages() {
    assert_eq!(secure_path("/etc/passwd"), Err("Absolute paths are not allowed".to_string()));
    assert_eq!(
        secure_path("a/../../b"),
        Err("Path attempts to escape base directory".to_string())
    );
    assert_eq!(secure_path("a/../b"), Ok("b".to_string()));
    assert_eq!(secure_path(""), Ok(String::new()));
}

#[test]
fn split_path_collapses_repeated_separators() {
    assert_eq!(split_path("a//b/./c/"), vec!["a", "b", "c"]);
    assert_eq!(split_path("./a"), vec![".", "a"]);
}

#[test]
fn join_path_absolute_part_replaces() {
    let parts = vec!["a".to_string(), "/b".to_string(), "c".to_string()];
    assert_eq!(join_path(parts), "/b/c");
    let parts = vec!["a/".to_string(), "b".to_string()];
    assert_eq!(join_path(parts), "a/b");
    let parts = vec!["a".to_string(), "".to_string()];
    assert_eq!(join_path(parts), "a/");
}

#[test]
fn validate_path_rules() {
    assert_eq!(validate_path("a/b.txt"), Ok("a/b.txt".to_string()));
    assert_eq!(
        validate_path("/abs"),
        Err("Absolute Pfade sind nicht erlaubt.".to_string())
    );
    assert_eq!(
        validate_path("a/../b"),
        Err("Pfad darf keine '..' enthalten.".to_string())
    );
}

#[test]
fn clean_path_resolves_by_text() {
    assert_eq!(clean_path("/dest/sub/../../../etc/passwd"), "/etc/passwd");
    assert_eq!(clean_path("a/./b/../c"), "a/c");
    assert_eq!(clean_path("../x"), "x");
}
