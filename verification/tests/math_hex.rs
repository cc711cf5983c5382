use sysx::hex::{fmt_hex, hex_to_str, is_valid_hex, is_valid_hex_strict, str_to_hex};
use sysx::SysxError;

// hex_to_str tests

#[test]
fn test_hex_to_str_basic() {
    let hex = "48 65 6C 6C 6F";
    assert_eq!(hex_to_str(hex).unwrap(), "Hello");
}

#[test]
fn test_hex_to_str_invalid_hex() {
    // The stray letter is cleaned away, which leaves an odd digit count.
    let hex = "48 6G";
    assert!(matches!(hex_to_str(hex).unwrap_err(), SysxError::InvalidSyntax(_)));
}

#[test]
fn test_hex_to_str_invalid_utf8() {
    let hex = "FF FF";
    assert!(matches!(hex_to_str(hex).unwrap_err(), SysxError::InvalidSyntax(_)));
}

// str_to_hex tests

#[test]
fn test_str_to_hex_basic() {
    let text = "Hi";
    assert_eq!(str_to_hex(text), "48 69");
}

#[test]
fn test_str_to_hex_empty() {
    let text = "";
    assert_eq!(str_to_hex(text), "");
}

#[test]
fn test_str_to_hex_special_chars() {
    let text = "!@#";
    assert_eq!(str_to_hex(text), "21 40 23");
}

// is_valid_hex tests

#[test]
fn test_is_valid_hex_correct() {
    assert!(is_valid_hex("48 65"));
    assert!(is_valid_hex("4865"));
}

#[test]
fn test_is_valid_hex_incorrect() {
    assert!(!is_valid_hex("48 6G"));
    assert!(!is_valid_hex(""));
}

// is_valid_hex_strict tests

#[test]
fn test_is_valid_hex_strict_correct() {
    assert!(is_valid_hex_strict("4865"));
    assert!(is_valid_hex_strict("48656C6C6F"));
}

#[test]
fn test_is_valid_hex_strict_incorrect() {
    assert!(!is_valid_hex_strict("486")); // odd length
    assert!(!is_valid_hex_strict("")); // empty string
    assert!(!is_valid_hex_strict("4G65")); // invalid characters
}

// fmt_hex tests

#[test]
fn test_fmt_hex_correct() {
    let input = "4865";
    assert_eq!(fmt_hex(input).unwrap(), "48 65");
}

#[test]
fn test_fmt_hex_with_invalid_chars() {
    let input = "48xyz65";
    assert_eq!(fmt_hex(input).unwrap(), "48 65");
}

#[test]
fn test_fmt_hex_invalid_length() {
    let input = "48A";
    assert!(matches!(fmt_hex(input).unwrap_err(), SysxError::InvalidSyntax(_)));
}

#[test]
fn test_fmt_hex_empty() {
    let input = "";
    assert!(matches!(fmt_hex(input).unwrap_err(), SysxError::InvalidSyntax(_)));
}

// Round-trip tests

#[test]
fn hex_test_hex_round_trip() {
    let original = "Hello, World!";
    let hex = str_to_hex(original);
    let result = hex_to_str(&hex).unwrap();
    assert_eq!(original, result);
}
