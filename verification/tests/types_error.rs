use std::num::{ParseFloatError, ParseIntError};
use std::path::Path;
use std::string::FromUtf8Error;
use std::io;

use sysx::types::error::{SysxError, TimeError};

// SysxError conversion tests

#[test]
fn test_from_regex_error() {
    let regex_err = regex::Regex::new("[").unwrap_err();
    let sysx_err: SysxError = regex_err.into();
    assert!(matches!(sysx_err, SysxError::RegexFailure(_)));
}

#[test]
fn test_from_io_error() {
    let io_err = io::Error::new(io::ErrorKind::NotFound, "file not found");
    let sysx_err: SysxError = io_err.into();
    assert!(matches!(sysx_err, SysxError::IoError(_)));
}

#[test]
fn test_from_parse_int_error() {
    let parse_err: ParseIntError = "abc".parse::<i32>().unwrap_err();
    let sysx_err: SysxError = parse_err.into();
    assert!(matches!(sysx_err, SysxError::ParseIntError(_)));
}

#[test]
fn test_from_parse_float_error() {
    let parse_err: ParseFloatError = "abc".parse::<f64>().unwrap_err();
    let sysx_err: SysxError = parse_err.into();
    assert!(matches!(sysx_err, SysxError::ParseFloatError(_)));
}

#[test]
fn test_from_utf8_error() {
    let invalid_utf8 = vec![0xFF, 0xFF];
    let utf8_err: FromUtf8Error = String::from_utf8(invalid_utf8).unwrap_err();
    let sysx_err: SysxError = utf8_err.into();
    assert!(matches!(sysx_err, SysxError::FromUtf8Error(_)));
}

#[test]
fn test_from_strip_prefix_error() {
    let prefix = Path::new("/a");
    let path = Path::new("/b");
    let prefix_err = path.strip_prefix(prefix).unwrap_err();
    let sysx_err: SysxError = prefix_err.into();
    assert!(matches!(sysx_err, SysxError::StripPrefixError(_)));
}

// SysxError creation tests

#[test]
fn test_invalid_syntax_error() {
    let err = SysxError::InvalidSyntax("invalid token".to_string());
    assert!(err.to_string().contains("Invalid type syntax"));
}

#[test]
fn test_validation_error() {
    let err = SysxError::ValidationError {
        expected: "string",
        actual: "integer".to_string(),
        context: Some("in parameter".to_string()),
    };
    let err_str = err.to_string();
    assert!(err_str.contains("expected string"));
    assert!(err_str.contains("found integer"));
}

// TimeError tests

#[test]
fn test_time_errors() {
    let format_err = TimeError::InvalidFormat("invalid format".to_string());
    assert!(format_err.to_string().contains("Invalid time format"));

    let range_err = TimeError::OutOfRange;
    assert!(range_err.to_string().contains("out of range"));

    let negative_err = TimeError::NegativeDuration;
    assert!(negative_err.to_string().contains("Negative time duration"));
}

#[test]
fn test_time_error_conversion() {
    let time_err = TimeError::OutOfRange;
    let sysx_err = SysxError::TimeError(time_err);
    assert!(sysx_err.to_string().contains("out of range"));
}

#[test]
fn test_parse_int_error_message() {
    let err: SysxError = "abc".parse::<i32>().unwrap_err().into();
    assert!(err.to_string().contains("Integer parsing failed"));
}

#[test]
fn test_random_error_message() {
    let err = SysxError::RandomError("empty range".to_string());
    assert!(err.to_string().contains("Random generation error"));
}

#[test]
fn test_env_var_not_found_message() {
    let err = SysxError::EnvVarNotFound("HOME".to_string());
    assert!(err.to_string().contains("Environment variable not found: HOME"));
}
