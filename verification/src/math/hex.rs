//! The hexadecimal codec: text to and from base-sixteen digit strings, two
//! digits per byte, with case conversion helpers.

use vstd::prelude::*;
use crate::codec::{
    check_base, check_strict_base, clean_base, decode_base, encode_base, format_base, spec_clean,
    spec_decode, spec_encode, spec_format, spec_lenient, spec_strict, Base,
};
use crate::text::{push_char, str_chars};
use crate::types::error::SysxError;

verus! {

/// Returns the hexadecimal digits of `input`, in order, everything else
/// dropped; both cases count as digits.
pub fn clean(input: &str) -> (r: String)
    ensures
        r@ == spec_clean(Base::Hex, input@),
{
    clean_base(Base::Hex, input)
}

/// Decodes a hexadecimal digit string to text: cleans it, requires a
/// non-empty even number of digits, and reads the bytes as UTF-8.
pub fn decode(hex: &str) -> (r: Result<String, SysxError>)
    ensures
        match r {
            Ok(t) => spec_decode(Base::Hex, hex@) == Some(t@),
            Err(e) => spec_decode(Base::Hex, hex@) is None && e matches SysxError::InvalidSyntax(
                _,
            ),
        },
{
    decode_base(Base::Hex, hex)
}

/// Encodes text as space-separated two-digit upper-case hexadecimal groups,
/// one per byte of its UTF-8 form.
pub fn encode(text: &str) -> (r: String)
    ensures
        r@ == spec_encode(Base::Hex, text@),
{
    encode_base(Base::Hex, text)
}

/// Lenient check: non-empty, and nothing besides hexadecimal digits and
/// whitespace.
pub fn check(hex: &str) -> (r: bool)
    ensures
        r == spec_lenient(Base::Hex, hex@),
{
    check_base(Base::Hex, hex)
}

/// Lenient check under its shorter name.
pub fn is_valid(hex: &str) -> (r: bool)
    ensures
        r == spec_lenient(Base::Hex, hex@),
{
    check_base(Base::Hex, hex)
}

/// Strict check: only whitespace besides the digits, and the digits form a
/// non-empty even-length string.
pub fn check_strict(hex: &str) -> (r: bool)
    ensures
        r == spec_strict(Base::Hex, hex@),
{
    check_strict_base(Base::Hex, hex)
}

/// Strict check under its shorter name.
pub fn is_valid_strict(hex: &str) -> (r: bool)
    ensures
        r == spec_strict(Base::Hex, hex@),
{
    check_strict_base(Base::Hex, hex)
}

/// Regroups the hexadecimal digits of `hex` into space-separated byte pairs;
/// fails on an empty or odd-length digit string.
pub fn format(hex: &str) -> (r: Result<String, SysxError>)
    ensures
        match r {
            Ok(f) => spec_format(Base::Hex, hex@) == Some(f@),
            Err(e) => spec_format(Base::Hex, hex@) is None && e matches SysxError::InvalidSyntax(
                _,
            ),
        },
{
    format_base(Base::Hex, hex)
}

/// The character with a lower-case hexadecimal letter raised to upper case;
/// anything else is left alone.
pub open spec fn spec_hex_upper(c: char) -> char {
    let u = c as u32;
    if 97 <= u <= 102 {
        ((u - 32) as u32) as char
    } else {
        c
    }
}

/// The character with an upper-case hexadecimal letter lowered; anything
/// else is left alone.
pub open spec fn spec_hex_lower(c: char) -> char {
    let u = c as u32;
    if 65 <= u <= 70 {
        ((u + 32) as u32) as char
    } else {
        c
    }
}

/// Raises the hexadecimal letters `a` to `f` to upper case, character by
/// character.
pub fn to_uppercase(hex: &str) -> (r: String)
    ensures
        r@ == Seq::new(hex@.len(), |i: int| spec_hex_upper(hex@[i])),
{
    let chars = str_chars(hex);
    let mut out = String::new();
    let mut i: usize = 0;
    while i < chars.len()
        invariant
            i <= chars@.len(),
            chars@ == hex@,
            out@ =~= Seq::new(i as nat, |k: int| spec_hex_upper(hex@[k])),
        decreases chars@.len() - i,
    {
        let c = chars[i];
        let u = c as u32;
        if 97 <= u && u <= 102 {
            push_char(&mut out, ((u - 32) as u8) as char);
        } else {
            push_char(&mut out, c);
        }
        proof {
            assert(out@ =~= Seq::new((i + 1) as nat, |k: int| spec_hex_upper(hex@[k])));
        }
        i = i + 1;
    }
    out
}

/// Lowers the hexadecimal letters `A` to `F`, character by character.
pub fn to_lowercase(hex: &str) -> (r: String)
    ensures
        r@ == Seq::new(hex@.len(), |i: int| spec_hex_lower(hex@[i])),
{
    let chars = str_chars(hex);
    let mut out = String::new();
    let mut i: usize = 0;
    while i < chars.len()
        invariant
            i <= chars@.len(),
            chars@ == hex@,
            out@ =~= Seq::new(i as nat, |k: int| spec_hex_lower(hex@[k])),
        decreases chars@.len() - i,
    {
        let c = chars[i];
        let u = c as u32;
        if 65 <= u && u <= 70 {
            push_char(&mut out, ((u + 32) as u8) as char);
        } else {
            push_char(&mut out, c);
        }
        proof {
            assert(out@ =~= Seq::new((i + 1) as nat, |k: int| spec_hex_lower(hex@[k])));
        }
        i = i + 1;
    }
    out
}

} // verus!
