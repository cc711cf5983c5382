use sysx::math::bin::bin_to_str;
use sysx::math::hex::{decode, encode};

#[test]
fn test_binary_conversions() {
    // Binary
    let bin = "01001000";
    assert_eq!(bin_to_str(bin).unwrap(), "H");
}

#[test]
fn test_hex_conversions() {
    // With spaces
    let hex_spaced = "48 65 6C 6C 6F";
    assert_eq!(decode(hex_spaced).unwrap(), "Hello");

    // Without spaces
    let hex_continuous = "48656C6C6F";
    assert_eq!(decode(hex_continuous).unwrap(), "Hello");

    // With noise
    let hex_dirty = "48z65$6C\n6C_6F";
    assert_eq!(decode(hex_dirty).unwrap(), "Hello");

    // Errors
    assert!(decode("486").is_err()); // odd length
    assert!(decode("48GG").is_ok()); // invalid characters are cleaned away
}

#[test]
fn test_hex_formatting() {
    let original = "Hello";
    let hex = encode(original);

    // Either spacing is fine
    assert!(hex == "48 65 6C 6C 6F" || hex == "48656C6C6F");

    // Round trip
    assert_eq!(decode(&hex).unwrap(), original);
}
