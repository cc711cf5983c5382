//! The hexadecimal codec under its older free-standing names.

use vstd::prelude::*;
use crate::codec::{spec_decode, spec_encode, spec_format, spec_lenient, spec_strict, Base};
use crate::math;
use crate::types::error::SysxError;

verus! {

/// Decodes a hexadecimal digit string to text; see `math::hex::decode`.
pub fn hex_to_str(hex: &str) -> (r: Result<String, SysxError>)
    ensures
        match r {
            Ok(t) => spec_decode(Base::Hex, hex@) == Some(t@),
            Err(e) => spec_decode(Base::Hex, hex@) is None && e matches SysxError::InvalidSyntax(
                _,
            ),
        },
{
    math::hex::decode(hex)
}

/// Encodes text as a hexadecimal digit string; see `math::hex::encode`.
pub fn str_to_hex(text: &str) -> (r: String)
    ensures
        r@ == spec_encode(Base::Hex, text@),
{
    math::hex::encode(text)
}

/// Lenient hexadecimal check; see `math::hex::check`.
pub fn is_valid_hex(hex: &str) -> (r: bool)
    ensures
        r == spec_lenient(Base::Hex, hex@),
{
    math::hex::check(hex)
}

/// Strict hexadecimal check; see `math::hex::check_strict`.
pub fn is_valid_hex_strict(hex: &str) -> (r: bool)
    ensures
        r == spec_strict(Base::Hex, hex@),
{
    math::hex::check_strict(hex)
}

/// Regroups hexadecimal digits into byte pairs; see `math::hex::format`.
pub fn fmt_hex(hex: &str) -> (r: Result<String, SysxError>)
    ensures
        match r {
            Ok(f) => spec_format(Base::Hex, hex@) == Some(f@),
            Err(e) => spec_format(Base::Hex, hex@) is None && e matches SysxError::InvalidSyntax(
                _,
            ),
        },
{
    math::hex::format(hex)
}

} // verus!
