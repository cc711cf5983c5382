use sysx::cmd::parse_command;
use sysx::SysxError;

#[test]
fn test_parse_command_basic() {
    let (program, args) = parse_command("echo test").unwrap();
    assert_eq!(program, "echo");
    assert_eq!(args, vec!["test".to_string()]);
}

#[test]
fn test_parse_command_quotes() {
    let (program, args) = parse_command("echo 'hello world' second").unwrap();
    assert_eq!(program, "echo");
    assert_eq!(args, vec!["hello world".to_string(), "second".to_string()]);
}

#[test]
fn test_parse_command_empty() {
    assert!(matches!(parse_command("").unwrap_err(), SysxError::InvalidSyntax(_)));
    assert!(matches!(parse_command("   \t ").unwrap_err(), SysxError::InvalidSyntax(_)));
}

#[test]
fn test_parse_command_unmatched_quote() {
    assert!(matches!(parse_command("echo 'oops").unwrap_err(), SysxError::InvalidSyntax(_)));
}

#[test]
fn test_parse_command_no_args() {
    let (program, args) = parse_command("ls").unwrap();
    assert_eq!(program, "ls");
    assert!(args.is_empty());
}
