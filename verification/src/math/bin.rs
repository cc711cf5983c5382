//! The binary codec: text to and from base-two digit strings, eight digits
//! per byte.

use vstd::prelude::*;
use crate::codec::{
    check_base, check_strict_base, clean_base, decode_base, encode_base, format_base, spec_clean,
    spec_decode, spec_encode, spec_format, spec_lenient, spec_strict, Base,
};
use crate::types::error::SysxError;

verus! {

/// Returns the binary digits of `input`, in order, everything else dropped.
pub fn clean(input: &str) -> (r: String)
    ensures
        r@ == spec_clean(Base::Bin, input@),
{
    clean_base(Base::Bin, input)
}

/// Returns the binary digits of `input`, in order, everything else dropped.
pub fn clean_bin(input: &str) -> (r: String)
    ensures
        r@ == spec_clean(Base::Bin, input@),
{
    clean_base(Base::Bin, input)
}

/// Decodes a binary digit string to text: cleans it, requires a non-empty
/// whole number of eight-digit groups, and reads the bytes as UTF-8.
pub fn decode(bin: &str) -> (r: Result<String, SysxError>)
    ensures
        match r {
            Ok(t) => spec_decode(Base::Bin, bin@) == Some(t@),
            Err(e) => spec_decode(Base::Bin, bin@) is None && e matches SysxError::InvalidSyntax(
                _,
            ),
        },
{
    decode_base(Base::Bin, bin)
}

/// Decodes a binary digit string to text; `decode` under its older name.
pub fn bin_to_str(bin: &str) -> (r: Result<String, SysxError>)
    ensures
        match r {
            Ok(t) => spec_decode(Base::Bin, bin@) == Some(t@),
            Err(e) => spec_decode(Base::Bin, bin@) is None && e matches SysxError::InvalidSyntax(
                _,
            ),
        },
{
    decode_base(Base::Bin, bin)
}

/// Encodes text as space-separated eight-digit binary groups, one per byte
/// of its UTF-8 form.
pub fn encode(text: &str) -> (r: String)
    ensures
        r@ == spec_encode(Base::Bin, text@),
{
    encode_base(Base::Bin, text)
}

/// Encodes text as a binary digit string; `encode` under its older name.
pub fn str_to_bin(text: &str) -> (r: String)
    ensures
        r@ == spec_encode(Base::Bin, text@),
{
    encode_base(Base::Bin, text)
}

/// Lenient check: non-empty, and nothing besides binary digits and
/// whitespace.
pub fn is_valid(bin: &str) -> (r: bool)
    ensures
        r == spec_lenient(Base::Bin, bin@),
{
    check_base(Base::Bin, bin)
}

/// Lenient check under its older name.
pub fn is_valid_bin(bin: &str) -> (r: bool)
    ensures
        r == spec_lenient(Base::Bin, bin@),
{
    check_base(Base::Bin, bin)
}

/// Strict check: only whitespace besides the digits, and the digits form a
/// non-empty whole number of eight-digit groups.
pub fn is_valid_strict(bin: &str) -> (r: bool)
    ensures
        r == spec_strict(Base::Bin, bin@),
{
    check_strict_base(Base::Bin, bin)
}

/// Strict check under its older name.
pub fn is_valid_bin_strict(bin: &str) -> (r: bool)
    ensures
        r == spec_strict(Base::Bin, bin@),
{
    check_strict_base(Base::Bin, bin)
}

/// Regroups the binary digits of `bin` into space-separated bytes; fails on
/// an empty or misaligned digit string.
pub fn format(bin: &str) -> (r: Result<String, SysxError>)
    ensures
        match r {
            Ok(f) => spec_format(Base::Bin, bin@) == Some(f@),
            Err(e) => spec_format(Base::Bin, bin@) is None && e matches SysxError::InvalidSyntax(
                _,
            ),
        },
{
    format_base(Base::Bin, bin)
}

/// Regroups binary digits into bytes; `format` under its older name.
pub fn fmt_bin(bin: &str) -> (r: Result<String, SysxError>)
    ensures
        match r {
            Ok(f) => spec_format(Base::Bin, bin@) == Some(f@),
            Err(e) => spec_format(Base::Bin, bin@) is None && e matches SysxError::InvalidSyntax(
                _,
            ),
        },
{
    format_base(Base::Bin, bin)
}

} // verus!
