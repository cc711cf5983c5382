use sysx::math::bin;
use sysx::math::hex;

#[test]
fn test_clean_idempotent_concrete() {
    let noisy = "01x10 2z1";
    assert_eq!(bin::clean(&bin::clean(noisy)), bin::clean(noisy));

    let noisy_hex = "4g8 6m5__xyz";
    assert_eq!(hex::clean(&hex::clean(noisy_hex)), hex::clean(noisy_hex));
}

#[test]
fn test_strict_implies_lenient_concrete() {
    let s = "01001000 01101001";
    assert!(bin::is_valid_strict(s));
    assert!(bin::is_valid(s));

    let h = "48 65";
    assert!(hex::check_strict(h));
    assert!(hex::check(h));
}

#[test]
fn test_format_output_is_strict() {
    let formatted = bin::format("0100100001101001").unwrap();
    assert!(bin::is_valid_strict(&formatted));

    let formatted_hex = hex::format("48zz65").unwrap();
    assert!(hex::check_strict(&formatted_hex));
}

#[test]
fn test_decode_length_invariant() {
    // Fails exactly while the cleaned digit count is empty or misaligned.
    assert!(bin::decode("").is_err());
    assert!(bin::decode("0100").is_err());
    assert!(bin::decode("01001000").is_ok());
    assert!(hex::decode("4").is_err());
    assert!(hex::decode("48").is_ok());
}

#[test]
fn test_round_trip_concrete() {
    let text = "codec round trip: äöü ✓";
    assert_eq!(bin::decode(&bin::encode(text)).unwrap(), text);
    assert_eq!(hex::decode(&hex::encode(text)).unwrap(), text);
}

#[test]
fn test_empty_input_policy() {
    assert_eq!(bin::encode(""), "");
    assert_eq!(hex::encode(""), "");
    assert!(bin::decode("").is_err());
    assert!(hex::decode("").is_err());
    assert!(!bin::is_valid(""));
    assert!(!hex::check(""));
    assert!(!bin::is_valid_strict(""));
    assert!(!hex::check_strict(""));
}

#[test]
fn test_hex_strict_scenarios() {
    assert!(hex::check_strict("DEADBEEF"));
    assert!(!hex::check_strict("DEADBEE"));
}

#[test]
fn test_hex_format_scenarios() {
    assert_eq!(hex::format("4865").unwrap(), "48 65");
    assert!(hex::format("48A").is_err());
}

#[test]
fn test_hex_decode_mixed_case() {
    assert_eq!(hex::decode("48656c6C6f").unwrap(), "Hello");
}

#[test]
fn test_bin_encode_scenario() {
    assert_eq!(bin::encode("H"), "01001000");
    assert_eq!(bin::decode("01001000").unwrap(), "H");
}
