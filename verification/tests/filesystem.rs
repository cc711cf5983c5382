use sysx::fs::normalize_path;

#[test]
fn test_normalize_path() {
    let normalized = normalize_path("./docs/../config/./file.txt");
    assert!(normalized.ends_with("file.txt"));
    assert!(normalized.ends_with("config/file.txt"));

    let normalized = normalize_path("/home/../usr/./local");
    assert_eq!(normalized, "/usr/local");

    let normalized = normalize_path("a/b/c/../../d");
    assert!(normalized.ends_with("d"));
    assert!(normalized.ends_with("a/d"));
}

#[test]
fn test_normalize_path_root() {
    assert_eq!(normalize_path("/"), "/");
    assert_eq!(normalize_path("/.."), "/");
    assert_eq!(normalize_path("//a//b"), "/a/b");
}

#[test]
fn test_normalize_path_relative() {
    assert_eq!(normalize_path("a/../.."), "");
    assert_eq!(normalize_path("../x"), "x");
    assert_eq!(normalize_path("./."), "");
}
