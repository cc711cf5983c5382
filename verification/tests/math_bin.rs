use sysx::math::bin::{bin_to_str, clean_bin, fmt_bin, is_valid_bin, is_valid_bin_strict,
    str_to_bin};
use sysx::SysxError;

// bin_to_str tests

#[test]
fn test_bin_to_str_basic() {
    let bin = "01001000 01100101 01101100 01101100 01101111";
    assert_eq!(bin_to_str(bin).unwrap(), "Hello");
}

#[test]
fn test_bin_to_str_invalid_binary() {
    // The stray digit is cleaned away, which leaves a misaligned digit count.
    let bin = "01001000 0110210";
    assert!(matches!(bin_to_str(bin).unwrap_err(), SysxError::InvalidSyntax(_)));
}

#[test]
fn test_bin_to_str_invalid_utf8() {
    let bin = "11111111 11111111";
    assert!(matches!(bin_to_str(bin).unwrap_err(), SysxError::InvalidSyntax(_)));
}

// str_to_bin tests

#[test]
fn test_str_to_bin_basic() {
    let text = "Hi";
    assert_eq!(str_to_bin(text), "01001000 01101001");
}

#[test]
fn test_str_to_bin_empty() {
    let text = "";
    assert_eq!(str_to_bin(text), "");
}

#[test]
fn test_str_to_bin_special_chars() {
    let text = "!@#";
    assert_eq!(str_to_bin(text), "00100001 01000000 00100011");
}

// is_valid_bin tests

#[test]
fn test_is_valid_bin_correct() {
    assert!(is_valid_bin("0100 1000"));
    assert!(is_valid_bin("01001000"));
}

#[test]
fn test_is_valid_bin_incorrect() {
    assert!(!is_valid_bin("0100x1000"));
    assert!(!is_valid_bin(""));
}

// is_valid_bin_strict tests

#[test]
fn test_is_valid_bin_strict_correct() {
    assert!(is_valid_bin_strict("01001000"));
    assert!(is_valid_bin_strict("0100100001101001"));
}

#[test]
fn test_is_valid_bin_strict_incorrect() {
    assert!(is_valid_bin_strict("0100 1000")); // whitespace separators are allowed
    assert!(!is_valid_bin_strict("0100100")); // length not a multiple of 8
    assert!(!is_valid_bin_strict("")); // empty string
}

// fmt_bin tests

#[test]
fn test_fmt_bin_correct() {
    let input = "0100100001101001";
    assert_eq!(fmt_bin(input).unwrap(), "01001000 01101001");
}

#[test]
fn test_fmt_bin_with_invalid_chars() {
    let input = "01001000xyz01101001";
    assert_eq!(fmt_bin(input).unwrap(), "01001000 01101001");
}

#[test]
fn test_fmt_bin_invalid_length() {
    let input = "0100100";
    assert!(matches!(fmt_bin(input).unwrap_err(), SysxError::InvalidSyntax(_)));
}

#[test]
fn test_fmt_bin_empty() {
    let input = "";
    assert!(matches!(fmt_bin(input).unwrap_err(), SysxError::InvalidSyntax(_)));
}

#[test]
fn test_clean_bin_basic() {
    assert_eq!(clean_bin("0 1 x 0"), "010");
}
