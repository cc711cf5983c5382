use sysx::info::{parse_os_release, OsInfoError};

#[test]
fn test_parse_os_release_basic() {
    let content = "NAME=\"Test Linux\"\nID=test\nVERSION_ID=\"1.2\"";
    let pairs = parse_os_release(content).unwrap();
    assert_eq!(pairs.len(), 3);
    assert_eq!(pairs[0], ("NAME".to_string(), "Test Linux".to_string()));
    assert_eq!(pairs[1], ("ID".to_string(), "test".to_string()));
    assert_eq!(pairs[2], ("VERSION_ID".to_string(), "1.2".to_string()));
}

#[test]
fn test_parse_os_release_comments_and_blanks() {
    let content = "# a comment\n\nID=alpine\n   \nPRETTY_NAME=Alpine";
    let pairs = parse_os_release(content).unwrap();
    assert_eq!(pairs.len(), 2);
    assert_eq!(pairs[0].0, "ID");
    assert_eq!(pairs[1].1, "Alpine");
}

#[test]
fn test_parse_os_release_missing_assignment() {
    let content = "ID=ok\njust words";
    assert!(matches!(parse_os_release(content).unwrap_err(), OsInfoError::ParseError(_)));
}

#[test]
fn test_parse_os_release_empty_key() {
    let content = "=value";
    assert!(matches!(parse_os_release(content).unwrap_err(), OsInfoError::ParseError(_)));
}

#[test]
fn test_parse_os_release_empty() {
    assert!(matches!(parse_os_release("").unwrap_err(), OsInfoError::ParseError(_)));
    assert!(matches!(parse_os_release("# only comments").unwrap_err(), OsInfoError::ParseError(_)));
}

#[test]
fn test_parse_os_release_value_with_equals() {
    let content = "KEY=a=b";
    let pairs = parse_os_release(content).unwrap();
    assert_eq!(pairs[0], ("KEY".to_string(), "a=b".to_string()));
}
