//! Core of the binary/hexadecimal text codec.
//!
//! A digit string represents a byte sequence in a fixed radix: base two uses
//! eight digits per byte, base sixteen uses two. The operations here are
//! shared by the `math::bin` and `math::hex` front ends: cleaning noisy
//! input, lenient and strict validation, encoding, decoding and separator
//! formatting, each against a mathematical model of the digit string.

use vstd::prelude::*;
use vstd::arithmetic::div_mod::{lemma_div_denominator, lemma_div_is_ordered};
use vstd::arithmetic::power::{lemma_pow_adds, lemma_pow_positive, pow};
use vstd::utf8::{decode_utf8, encode_utf8, valid_utf8};
use crate::text::{bytes_to_string, is_space, push_char, spec_is_space, str_chars};
use crate::types::error::SysxError;

verus! {

/// The radix a digit string is written in.
#[derive(Clone, Copy)]
pub enum Base {
    /// Base two: eight digits per byte.
    Bin,
    /// Base sixteen: two digits per byte.
    Hex,
}

/// Number of digits that encode one byte.
pub open spec fn spec_digits_per_byte(b: Base) -> int {
    match b {
        Base::Bin => 8,
        Base::Hex => 2,
    }
}

/// The radix as a number.
pub open spec fn spec_radix(b: Base) -> int {
    match b {
        Base::Bin => 2,
        Base::Hex => 16,
    }
}

/// True when `c` is a digit of base `b`; hexadecimal digits are accepted in
/// either case.
pub open spec fn spec_is_digit(b: Base, c: char) -> bool {
    let u = c as u32;
    match b {
        Base::Bin => c == '0' || c == '1',
        Base::Hex => (48 <= u <= 57) || (65 <= u <= 70) || (97 <= u <= 102),
    }
}

/// Numeric value of a digit character.
pub open spec fn spec_digit_val(c: char) -> int {
    let u = c as u32;
    if 48 <= u <= 57 {
        u - 48
    } else if 65 <= u <= 70 {
        u - 55
    } else if 97 <= u <= 102 {
        u - 87
    } else {
        0
    }
}

/// The digit character for a value below sixteen, upper case above nine.
pub open spec fn spec_digit_char(v: int) -> char {
    if v < 10 {
        ((48 + v) as u32) as char
    } else {
        ((55 + v) as u32) as char
    }
}

/// The maximal subsequence of `s` made of digits of base `b`.
pub open spec fn spec_clean(b: Base, s: Seq<char>) -> Seq<char> {
    s.filter(|c: char| spec_is_digit(b, c))
}

/// Lenient validity: non-empty, and every character is whitespace or a digit.
pub open spec fn spec_lenient(b: Base, s: Seq<char>) -> bool {
    &&& s.len() > 0
    &&& forall|i: int| 0 <= i < s.len() ==> spec_is_space(s[i]) || spec_is_digit(b, s[i])
}

/// Strict validity: every character is whitespace or a digit, and the digits
/// alone form a non-empty string whose length is a whole number of bytes.
pub open spec fn spec_strict(b: Base, s: Seq<char>) -> bool {
    &&& forall|i: int| 0 <= i < s.len() ==> spec_is_space(s[i]) || spec_is_digit(b, s[i])
    &&& spec_clean(b, s).len() > 0
    &&& spec_clean(b, s).len() as int % spec_digits_per_byte(b) == 0
}

/// Number of digits per byte, as a machine integer.
pub fn digits_per_byte(b: Base) -> (r: usize)
    ensures
        r == spec_digits_per_byte(b),
{
    match b {
        Base::Bin => 8,
        Base::Hex => 2,
    }
}

/// The radix, as a machine integer.
pub fn radix(b: Base) -> (r: u32)
    ensures
        r == spec_radix(b),
{
    match b {
        Base::Bin => 2,
        Base::Hex => 16,
    }
}

/// Checks whether `c` is a digit of base `b`.
pub fn is_digit(b: Base, c: char) -> (r: bool)
    ensures
        r == spec_is_digit(b, c),
{
    let u = c as u32;
    match b {
        Base::Bin => c == '0' || c == '1',
        Base::Hex => (48 <= u && u <= 57) || (65 <= u && u <= 70) || (97 <= u && u <= 102),
    }
}

/// Numeric value of a digit character.
pub fn digit_val(c: char) -> (r: u8)
    ensures
        r as int == spec_digit_val(c),
        r < 16,
{
    let u = c as u32;
    if 48 <= u && u <= 57 {
        (u - 48) as u8
    } else if 65 <= u && u <= 70 {
        (u - 55) as u8
    } else if 97 <= u && u <= 102 {
        (u - 87) as u8
    } else {
        0
    }
}

/// The digit character for a value below sixteen.
pub fn digit_char(v: u8) -> (r: char)
    requires
        v < 16,
    ensures
        r == spec_digit_char(v as int),
{
    if v < 10 {
        (48 + v) as char
    } else {
        (55 + v) as char
    }
}

/// Keeps exactly the digits of base `b`, in their original order.
pub fn clean_base(b: Base, input: &str) -> (r: String)
    ensures
        r@ == spec_clean(b, input@),
{
    let chars = str_chars(input);
    let mut out = String::new();
    let mut i: usize = 0;
    while i < chars.len()
        invariant
            i <= chars@.len(),
            chars@ == input@,
            out@ == spec_clean(b, input@.take(i as int)),
        decreases chars@.len() - i,
    {
        let c = chars[i];
        proof {
            reveal(Seq::filter);
            assert(input@.take(i + 1).drop_last() =~= input@.take(i as int));
            assert(input@.take(i + 1).last() == input@[i as int]);
        }
        if is_digit(b, c) {
            push_char(&mut out, c);
        }
        i = i + 1;
    }
    proof {
        assert(input@.take(input@.len() as int) =~= input@);
    }
    out
}

/// Lenient check: the input is non-empty and holds only whitespace and digits
/// of base `b`.
pub fn check_base(b: Base, input: &str) -> (r: bool)
    ensures
        r == spec_lenient(b, input@),
{
    let chars = str_chars(input);
    if chars.len() == 0 {
        return false;
    }
    let mut i: usize = 0;
    while i < chars.len()
        invariant
            i <= chars@.len(),
            chars@ == input@,
            forall|j: int| 0 <= j < i ==> spec_is_space(input@[j]) || spec_is_digit(b, input@[j]),
        decreases chars@.len() - i,
    {
        let c = chars[i];
        if !is_space(c) && !is_digit(b, c) {
            return false;
        }
        i = i + 1;
    }
    true
}

/// Strict check: only whitespace besides the digits, and the digits form a
/// non-empty whole number of bytes.
pub fn check_strict_base(b: Base, input: &str) -> (r: bool)
    ensures
        r == spec_strict(b, input@),
{
    let chars = str_chars(input);
    let mut count: usize = 0;
    let mut i: usize = 0;
    while i < chars.len()
        invariant
            i <= chars@.len(),
            chars@ == input@,
            count == spec_clean(b, input@.take(i as int)).len(),
            count <= i,
            forall|j: int| 0 <= j < i ==> spec_is_space(input@[j]) || spec_is_digit(b, input@[j]),
        decreases chars@.len() - i,
    {
        let c = chars[i];
        proof {
            reveal(Seq::filter);
            assert(input@.take(i + 1).drop_last() =~= input@.take(i as int));
            assert(input@.take(i + 1).last() == input@[i as int]);
            input@.take(i + 1).lemma_filter_len(|c: char| spec_is_digit(b, c));
        }
        if is_digit(b, c) {
            count = count + 1;
        } else if !is_space(c) {
            return false;
        }
        i = i + 1;
    }
    proof {
        assert(input@.take(input@.len() as int) =~= input@);
    }
    let d = digits_per_byte(b);
    count > 0 && count % d == 0
}

/// Value of a digit group, most significant digit first.
pub open spec fn spec_group_val(b: Base, g: Seq<char>) -> int
    decreases g.len(),
{
    if g.len() == 0 {
        0
    } else {
        spec_group_val(b, g.drop_last()) * spec_radix(b) + spec_digit_val(g.last())
    }
}

/// The `n` low-order digits of `v` in base `b`, most significant first.
pub open spec fn spec_val_digits(b: Base, v: int, n: nat) -> Seq<char>
    decreases n,
{
    if n == 0 {
        Seq::empty()
    } else {
        spec_val_digits(b, v / spec_radix(b), (n - 1) as nat).push(
            spec_digit_char(v % spec_radix(b)),
        )
    }
}

/// The fixed-width digit group of one byte.
pub open spec fn spec_byte_digits(b: Base, x: u8) -> Seq<char> {
    spec_val_digits(b, x as int, spec_digits_per_byte(b) as nat)
}

/// The bytes encoded by an aligned digit string, one byte per group.
pub open spec fn spec_bytes_of_digits(b: Base, ds: Seq<char>) -> Seq<u8> {
    Seq::new(
        (ds.len() as int / spec_digits_per_byte(b)) as nat,
        |i: int|
            spec_group_val(
                b,
                ds.subrange(i * spec_digits_per_byte(b), (i + 1) * spec_digits_per_byte(b)),
            ) as u8,
    )
}

/// The digit groups of a byte sequence, concatenated without separators.
pub open spec fn spec_flat_digits(b: Base, bytes: Seq<u8>) -> Seq<char>
    decreases bytes.len(),
{
    if bytes.len() == 0 {
        Seq::empty()
    } else {
        spec_flat_digits(b, bytes.drop_last()) + spec_byte_digits(b, bytes.last())
    }
}

/// The digit groups of a byte sequence, separated by single spaces.
pub open spec fn spec_encode_bytes(b: Base, bytes: Seq<u8>) -> Seq<char>
    decreases bytes.len(),
{
    if bytes.len() == 0 {
        Seq::empty()
    } else if bytes.len() == 1 {
        spec_byte_digits(b, bytes[0])
    } else {
        spec_encode_bytes(b, bytes.drop_last()) + seq![' '] + spec_byte_digits(b, bytes.last())
    }
}

/// What `encode` returns: the digit groups of the text's UTF-8 bytes,
/// space-separated.
pub open spec fn spec_encode(b: Base, text: Seq<char>) -> Seq<char> {
    spec_encode_bytes(b, encode_utf8(text))
}

/// An aligned digit string regrouped with a single space between groups.
pub open spec fn spec_grouped(b: Base, ds: Seq<char>) -> Seq<char>
    decreases ds.len(),
{
    if ds.len() <= spec_digits_per_byte(b) {
        ds
    } else {
        spec_grouped(b, ds.take(ds.len() - spec_digits_per_byte(b))) + seq![' '] + ds.skip(
            ds.len() - spec_digits_per_byte(b),
        )
    }
}

/// What `format` returns: `None` where the cleaned digits are empty or
/// misaligned, else the digits regrouped with spaces.
pub open spec fn spec_format(b: Base, s: Seq<char>) -> Option<Seq<char>> {
    let ds = spec_clean(b, s);
    if ds.len() == 0 || ds.len() as int % spec_digits_per_byte(b) != 0 {
        None
    } else {
        Some(spec_grouped(b, ds))
    }
}

/// What `decode` returns: `None` where the cleaned digits are empty or
/// misaligned or the encoded bytes are not valid UTF-8, else the decoded
/// text.
pub open spec fn spec_decode(b: Base, s: Seq<char>) -> Option<Seq<char>> {
    let ds = spec_clean(b, s);
    if ds.len() == 0 || ds.len() as int % spec_digits_per_byte(b) != 0 {
        None
    } else {
        let bytes = spec_bytes_of_digits(b, ds);
        if valid_utf8(bytes) {
            Some(decode_utf8(bytes))
        } else {
            None
        }
    }
}

/// A digit character carries its value back, and is a digit of every base
/// whose radix lies above the value.
proof fn lemma_digit_char_props(v: int)
    requires
        0 <= v < 16,
    ensures
        spec_digit_val(spec_digit_char(v)) == v,
        spec_is_digit(Base::Hex, spec_digit_char(v)),
        v < 2 ==> spec_is_digit(Base::Bin, spec_digit_char(v)),
{
}

/// Every digit's value lies below the radix.
proof fn lemma_digit_val_bound(b: Base, c: char)
    requires
        spec_is_digit(b, c),
    ensures
        0 <= spec_digit_val(c) < spec_radix(b),
{
}

/// One radix raised to the digits of one byte is the byte range.
proof fn lemma_radix_pow_byte(b: Base)
    ensures
        pow(spec_radix(b), spec_digits_per_byte(b) as nat) == 256,
{
    reveal_with_fuel(pow, 9);
    assert(pow(2, 8) == 256);
    assert(pow(16, 2) == 256);
}

/// A fixed-width digit group has that width, and is made of digits.
proof fn lemma_val_digits_props(b: Base, v: int, n: nat)
    requires
        0 <= v,
    ensures
        spec_val_digits(b, v, n).len() == n,
        forall|i: int|
            0 <= i < n ==> spec_is_digit(b, #[trigger] spec_val_digits(b, v, n)[i]),
    decreases n,
{
    if n > 0 {
        let r = spec_radix(b);
        lemma_val_digits_props(b, v / r, (n - 1) as nat);
        lemma_digit_char_props(v % r);
        assert(0 <= v % r < r);
    }
}

/// Reading a fixed-width digit group back gives the value it was made from.
proof fn lemma_val_digits_roundtrip(b: Base, v: int, n: nat)
    requires
        0 <= v < pow(spec_radix(b), n),
    ensures
        spec_group_val(b, spec_val_digits(b, v, n)) == v,
    decreases n,
{
    let r = spec_radix(b);
    if n == 0 {
        assert(pow(r, 0) == 1) by {
            reveal(pow);
        }
    } else {
        let prefix = spec_val_digits(b, v / r, (n - 1) as nat);
        let g = prefix.push(spec_digit_char(v % r));
        assert(g.drop_last() =~= prefix);
        assert(g.last() == spec_digit_char(v % r));
        assert(v / r < pow(r, (n - 1) as nat)) by {
            lemma_pow_adds(r, (n - 1) as nat, 1);
            assert(pow(r, 1) == r) by {
                reveal_with_fuel(pow, 2);
            }
            assert(pow(r, n) == pow(r, (n - 1) as nat) * r);
            lemma_pow_positive(r, (n - 1) as nat);
            assert(v / r < pow(r, (n - 1) as nat)) by (nonlinear_arith)
                requires
                    0 <= v,
                    r >= 2,
                    v < pow(r, (n - 1) as nat) * r,
                    pow(r, (n - 1) as nat) > 0,
            ;
        }
        lemma_val_digits_roundtrip(b, v / r, (n - 1) as nat);
        lemma_digit_char_props(v % r);
        assert((v / r) * r + v % r == v) by (nonlinear_arith)
            requires
                r != 0,
        ;
    }
}

/// A group of digits reads back to a value within the radix range.
proof fn lemma_group_val_bound(b: Base, g: Seq<char>)
    requires
        forall|i: int| 0 <= i < g.len() ==> spec_is_digit(b, #[trigger] g[i]),
    ensures
        0 <= spec_group_val(b, g) < pow(spec_radix(b), g.len()),
    decreases g.len(),
{
    let r = spec_radix(b);
    if g.len() == 0 {
        assert(pow(r, 0) == 1) by {
            reveal(pow);
        }
    } else {
        let prefix = g.drop_last();
        lemma_group_val_bound(b, prefix);
        lemma_digit_val_bound(b, g.last());
        let p = pow(r, prefix.len());
        lemma_pow_adds(r, prefix.len(), 1);
        assert(pow(r, 1) == r) by {
            reveal_with_fuel(pow, 2);
        }
        assert(pow(r, g.len()) == p * r);
        assert(spec_group_val(b, prefix) * r + spec_digit_val(g.last()) < p * r)
            by (nonlinear_arith)
            requires
                0 <= spec_group_val(b, prefix) < p,
                0 <= spec_digit_val(g.last()) < r,
                r >= 2,
        ;
    }
}

/// The two digits of one byte in base sixteen.
proof fn lemma_byte_digits_hex(x: u8)
    ensures
        spec_byte_digits(Base::Hex, x) =~= seq![
            spec_digit_char(x as int / 16),
            spec_digit_char(x as int % 16),
        ],
{
    let v = x as int;
    lemma_div_is_ordered(v, 255, 16);
    assert(v / 16 < 16);
    reveal_with_fuel(spec_val_digits, 3);
    assert((v / 16) % 16 == v / 16);
    assert((v / 16) / 16 == 0) by {
        lemma_div_denominator(v, 16, 16);
    }
}

/// The eight digits of one byte in base two.
proof fn lemma_byte_digits_bin(x: u8)
    ensures
        spec_byte_digits(Base::Bin, x) =~= seq![
            spec_digit_char((x as int / 128) % 2),
            spec_digit_char((x as int / 64) % 2),
            spec_digit_char((x as int / 32) % 2),
            spec_digit_char((x as int / 16) % 2),
            spec_digit_char((x as int / 8) % 2),
            spec_digit_char((x as int / 4) % 2),
            spec_digit_char((x as int / 2) % 2),
            spec_digit_char(x as int % 2),
        ],
{
    let v = x as int;
    reveal_with_fuel(spec_val_digits, 9);
    lemma_div_denominator(v, 2, 2);
    lemma_div_denominator(v, 4, 2);
    lemma_div_denominator(v, 8, 2);
    lemma_div_denominator(v, 16, 2);
    lemma_div_denominator(v, 32, 2);
    lemma_div_denominator(v, 64, 2);
    lemma_div_denominator(v, 128, 2);
    assert(v / 256 == 0);
}

/// Encodes the UTF-8 bytes of `text` as space-separated digit groups.
#[verifier::rlimit(80)]
pub fn encode_base(b: Base, text: &str) -> (r: String)
    ensures
        r@ == spec_encode(b, text@),
{
    let bytes: &[u8] = text.as_bytes();
    let n = bytes.len();
    let mut out = String::new();
    let mut i: usize = 0;
    while i < n
        invariant
            i <= n,
            n == bytes@.len(),
            bytes@ == encode_utf8(text@),
            out@ == spec_encode_bytes(b, bytes@.take(i as int)),
        decreases n - i,
    {
        if i > 0 {
            push_char(&mut out, ' ');
        }
        let x = bytes[i];
        match b {
            Base::Hex => {
                push_char(&mut out, digit_char(x / 16));
                push_char(&mut out, digit_char(x % 16));
                proof {
                    lemma_byte_digits_hex(x);
                }
            },
            Base::Bin => {
                push_char(&mut out, digit_char((x / 128) % 2));
                push_char(&mut out, digit_char((x / 64) % 2));
                push_char(&mut out, digit_char((x / 32) % 2));
                push_char(&mut out, digit_char((x / 16) % 2));
                push_char(&mut out, digit_char((x / 8) % 2));
                push_char(&mut out, digit_char((x / 4) % 2));
                push_char(&mut out, digit_char((x / 2) % 2));
                push_char(&mut out, digit_char(x % 2));
                proof {
                    lemma_byte_digits_bin(x);
                }
            },
        }
        proof {
            assert(bytes@.take(i + 1).drop_last() =~= bytes@.take(i as int));
            assert(bytes@.take(i + 1).last() == bytes@[i as int]);
            assert(out@ =~= spec_encode_bytes(b, bytes@.take(i + 1)));
        }
        i = i + 1;
    }
    proof {
        assert(bytes@.take(n as int) =~= bytes@);
    }
    out
}

/// Decodes a digit string: cleans it, requires a whole number of byte
/// groups, reads each group as one byte and decodes the bytes as UTF-8.
pub fn decode_base(b: Base, input: &str) -> (r: Result<String, SysxError>)
    ensures
        match r {
            Ok(t) => spec_decode(b, input@) == Some(t@),
            Err(e) => spec_decode(b, input@) is None && e matches SysxError::InvalidSyntax(_),
        },
{
    let cleaned = clean_base(b, input);
    let ds = str_chars(cleaned.as_str());
    let d = digits_per_byte(b);
    let rad = radix(b);
    let n = ds.len();
    if n == 0 {
        return Err(SysxError::InvalidSyntax("empty digit string".to_owned()));
    }
    if n % d != 0 {
        return Err(
            SysxError::InvalidSyntax("digit count is not a whole number of bytes".to_owned()),
        );
    }
    let groups = n / d;
    let mut bytes: Vec<u8> = Vec::new();
    let mut i: usize = 0;
    proof {
        lemma_radix_pow_byte(b);
        assert(pow(rad as int, 0) == 1) by {
            reveal(pow);
        }
    }
    while i < groups
        invariant
            i <= groups,
            groups == n / d,
            n % d == 0,
            n == ds@.len(),
            d == spec_digits_per_byte(b),
            rad == spec_radix(b),
            ds@ == spec_clean(b, input@),
            pow(rad as int, d as nat) == 256,
            bytes@.len() == i,
            forall|k: int|
                0 <= k < i ==> bytes@[k] == #[trigger] spec_bytes_of_digits(b, ds@)[k],
        decreases groups - i,
    {
        let mut acc: u32 = 0;
        let mut j: usize = 0;
        proof {
            assert(pow(rad as int, 0) == 1) by {
                reveal(pow);
            }
            assert(ds@.subrange(i as int * d as int, i as int * d as int) =~= Seq::empty());
            assert((i + 1) * d as int <= groups * d as int) by (nonlinear_arith)
                requires
                    i < groups,
                    d >= 1,
            ;
            assert(groups * d as int == n) by (nonlinear_arith)
                requires
                    groups == n as int / d as int,
                    n as int % d as int == 0,
                    d >= 1,
            ;
        }
        while j < d
            invariant
                j <= d,
                i < groups,
                (i + 1) * d as int <= n,
                n == ds@.len(),
                d == spec_digits_per_byte(b),
                rad == spec_radix(b),
                ds@ == spec_clean(b, input@),
                pow(rad as int, d as nat) == 256,
                acc == spec_group_val(b, ds@.subrange(i as int * d as int, i as int * d as int + j)),
                acc < pow(rad as int, j as nat),
            decreases d - j,
        {
            let lo = i * d;
            let c = ds[lo + j];
            proof {
                let g1 = ds@.subrange(lo as int, lo as int + j + 1);
                assert(g1.drop_last() =~= ds@.subrange(lo as int, lo as int + j));
                assert(g1.last() == ds@[lo as int + j]);
                assert(lo as int + j < n);
                input@.lemma_filter_pred(|c: char| spec_is_digit(b, c), lo as int + j);
                lemma_digit_val_bound(b, c);
                lemma_pow_adds(rad as int, j as nat, 1);
                assert(pow(rad as int, 1) == rad) by {
                    reveal_with_fuel(pow, 2);
                }
                assert(acc * rad + spec_digit_val(c) < pow(rad as int, (j + 1) as nat))
                    by (nonlinear_arith)
                    requires
                        0 <= acc < pow(rad as int, j as nat),
                        0 <= spec_digit_val(c) < rad,
                        rad >= 2,
                        pow(rad as int, (j + 1) as nat) == pow(rad as int, j as nat) * rad,
                ;
                vstd::arithmetic::power::lemma_pow_increases(rad as nat, (j + 1) as nat, d as nat);
                assert(pow(rad as int, (j + 1) as nat) <= 256);
            }
            acc = acc * rad + digit_val(c) as u32;
            j = j + 1;
        }
        proof {
            vstd::arithmetic::power::lemma_pow_increases(rad as nat, d as nat, d as nat);
            assert(acc < 256);
        }
        bytes.push(acc as u8);
        i = i + 1;
    }
    proof {
        assert(bytes@ =~= spec_bytes_of_digits(b, ds@)) by {
            assert(n as int / d as int == groups);
        }
    }
    match bytes_to_string(bytes) {
        Some(t) => Ok(t),
        None => Err(SysxError::InvalidSyntax("decoded bytes are not valid UTF-8".to_owned())),
    }
}

/// Regroups the digits of a noisy digit string into space-separated byte
/// groups; fails where the cleaned digits are empty or misaligned.
pub fn format_base(b: Base, input: &str) -> (r: Result<String, SysxError>)
    ensures
        match r {
            Ok(f) => spec_format(b, input@) == Some(f@),
            Err(e) => spec_format(b, input@) is None && e matches SysxError::InvalidSyntax(_),
        },
{
    let cleaned = clean_base(b, input);
    let ds = str_chars(cleaned.as_str());
    let d = digits_per_byte(b);
    let n = ds.len();
    if n == 0 {
        return Err(SysxError::InvalidSyntax("empty digit string".to_owned()));
    }
    if n % d != 0 {
        return Err(
            SysxError::InvalidSyntax("digit count is not a whole number of bytes".to_owned()),
        );
    }
    let groups = n / d;
    let mut out = String::new();
    let mut i: usize = 0;
    proof {
        assert(ds@.take(0) =~= Seq::<char>::empty());
        assert(groups * d as int == n) by (nonlinear_arith)
            requires
                groups == n as int / d as int,
                n as int % d as int == 0,
                d >= 1,
        ;
    }
    while i < groups
        invariant
            i <= groups,
            groups * d as int == n,
            n == ds@.len(),
            n >= 1,
            d == spec_digits_per_byte(b),
            ds@ == spec_clean(b, input@),
            out@ == spec_grouped(b, ds@.take(i as int * d as int)),
        decreases groups - i,
    {
        if i > 0 {
            push_char(&mut out, ' ');
        }
        let lo = i * d;
        proof {
            assert((i + 1) * d as int <= groups * d as int) by (nonlinear_arith)
                requires
                    i < groups,
                    d >= 1,
            ;
            assert(lo as int == i as int * d as int);
        }
        let mut j: usize = 0;
        while j < d
            invariant
                j <= d,
                i < groups,
                lo as int == i as int * d as int,
                (i + 1) * d as int <= n,
                n == ds@.len(),
                d == spec_digits_per_byte(b),
                ds@ == spec_clean(b, input@),
                out@ == spec_grouped(b, ds@.take(lo as int)) + (
                    if i > 0 {
                        seq![' ']
                    } else {
                        Seq::<char>::empty()
                    }
                ) + ds@.subrange(lo as int, lo as int + j),
            decreases d - j,
        {
            push_char(&mut out, ds[lo + j]);
            proof {
                assert(ds@.subrange(lo as int, lo as int + j + 1) =~= ds@.subrange(
                    lo as int,
                    lo as int + j,
                ).push(ds@[lo as int + j]));
                assert(out@ =~= spec_grouped(b, ds@.take(lo as int)) + (
                    if i > 0 {
                        seq![' ']
                    } else {
                        Seq::<char>::empty()
                    }
                ) + ds@.subrange(lo as int, lo as int + j + 1));
            }
            j = j + 1;
        }
        proof {
            let hi = (i + 1) as int * d as int;
            let t = ds@.take(hi);
            if i == 0 {
                assert(t.len() == d);
                assert(spec_grouped(b, t) == t);
                assert(out@ =~= t);
            } else {
                assert(t.len() > d);
                assert(t.take(t.len() - d) =~= ds@.take(lo as int));
                assert(t.skip(t.len() - d) =~= ds@.subrange(lo as int, hi));
                assert(out@ =~= spec_grouped(b, t.take(t.len() - d)) + seq![' '] + t.skip(
                    t.len() - d,
                ));
            }
            assert(out@ == spec_grouped(b, ds@.take(hi)));
        }
        i = i + 1;
    }
    proof {
        assert(ds@.take(groups as int * d as int) =~= ds@);
    }
    Ok(out)
}

/// Filtering keeps a sequence whole when every element passes the predicate.
proof fn lemma_filter_all<A>(s: Seq<A>, pred: spec_fn(A) -> bool)
    requires
        forall|i: int| 0 <= i < s.len() ==> pred(#[trigger] s[i]),
    ensures
        s.filter(pred) =~= s,
    decreases s.len(),
{
    reveal(Seq::filter);
    if s.len() > 0 {
        assert(forall|i: int| 0 <= i < s.drop_last().len() ==> pred(#[trigger] s.drop_last()[i]));
        lemma_filter_all(s.drop_last(), pred);
    }
}

/// Law: cleaning is idempotent — cleaning an already cleaned string changes
/// nothing.
pub proof fn lemma_clean_idempotent(b: Base, s: Seq<char>)
    ensures
        spec_clean(b, spec_clean(b, s)) == spec_clean(b, s),
{
    let pred = |c: char| spec_is_digit(b, c);
    let ds = spec_clean(b, s);
    assert forall|i: int| 0 <= i < ds.len() implies pred(#[trigger] ds[i]) by {
        s.lemma_filter_pred(pred, i);
    }
    lemma_filter_all(ds, pred);
}

/// Law: strict validity implies lenient validity.
pub proof fn lemma_strict_implies_lenient(b: Base, s: Seq<char>)
    ensures
        spec_strict(b, s) ==> spec_lenient(b, s),
{
    if spec_strict(b, s) {
        s.lemma_filter_len(|c: char| spec_is_digit(b, c));
    }
}

/// Regrouped digits hold only digits and spaces, and clean back to the
/// digits they were made from.
proof fn lemma_grouped_props(b: Base, ds: Seq<char>)
    requires
        forall|i: int| 0 <= i < ds.len() ==> spec_is_digit(b, #[trigger] ds[i]),
    ensures
        forall|i: int|
            0 <= i < spec_grouped(b, ds).len() ==> spec_is_space(#[trigger] spec_grouped(b, ds)[i])
                || spec_is_digit(b, spec_grouped(b, ds)[i]),
        spec_clean(b, spec_grouped(b, ds)) == ds,
    decreases ds.len(),
{
    let pred = |c: char| spec_is_digit(b, c);
    let d = spec_digits_per_byte(b);
    if ds.len() <= d {
        lemma_filter_all(ds, pred);
    } else {
        let head = ds.take(ds.len() - d);
        let tail = ds.skip(ds.len() - d);
        assert(forall|i: int| 0 <= i < head.len() ==> pred(#[trigger] head[i]));
        lemma_grouped_props(b, head);
        Seq::filter_distributes_over_add(spec_grouped(b, head), seq![' '], pred);
        Seq::filter_distributes_over_add(spec_grouped(b, head) + seq![' '], tail, pred);
        assert(seq![' '].filter(pred) =~= Seq::<char>::empty()) by {
            assert(forall|i: int| 0 <= i < 1 ==> !pred(#[trigger] seq![' '][i]));
            seq![' '].lemma_all_neg_filter_empty(pred);
        }
        lemma_filter_all(tail, pred);
        assert((spec_grouped(b, head) + seq![' ']).filter(pred) == head);
        assert(spec_clean(b, spec_grouped(b, ds)) =~= ds) by {
            assert(head + tail =~= ds);
        }
    }
}

/// Law: whatever `format` returns satisfies the strict check.
pub proof fn lemma_format_strict(b: Base, s: Seq<char>)
    ensures
        spec_format(b, s) matches Some(f) ==> spec_strict(b, f),
{
    if spec_format(b, s) is Some {
        let pred = |c: char| spec_is_digit(b, c);
        let ds = spec_clean(b, s);
        assert forall|i: int| 0 <= i < ds.len() implies pred(#[trigger] ds[i]) by {
            s.lemma_filter_pred(pred, i);
        }
        lemma_grouped_props(b, ds);
    }
}

/// The UTF-8 encoding of a non-empty text is non-empty.
proof fn lemma_encode_utf8_nonempty(text: Seq<char>)
    requires
        text.len() > 0,
    ensures
        encode_utf8(text).len() > 0,
{
    vstd::utf8::char_is_scalar(text[0]);
    assert(encode_utf8(text) == vstd::utf8::encode_scalar(text[0] as u32) + encode_utf8(
        text.drop_first(),
    ));
}

/// The concatenated digit groups of a byte sequence: all digits, one group
/// of fixed width per byte.
proof fn lemma_flat_digits_props(b: Base, bytes: Seq<u8>)
    ensures
        spec_flat_digits(b, bytes).len() == spec_digits_per_byte(b) * bytes.len(),
        forall|i: int|
            0 <= i < spec_flat_digits(b, bytes).len() ==> spec_is_digit(
                b,
                #[trigger] spec_flat_digits(b, bytes)[i],
            ),
    decreases bytes.len(),
{
    let d = spec_digits_per_byte(b);
    if bytes.len() > 0 {
        lemma_flat_digits_props(b, bytes.drop_last());
        lemma_val_digits_props(b, bytes.last() as int, d as nat);
        assert(d * bytes.len() == d * (bytes.len() - 1) + d) by (nonlinear_arith);
    }
}

/// Each aligned block of the concatenated digit groups is the digit group of
/// the byte at that position.
proof fn lemma_flat_digits_block(b: Base, bytes: Seq<u8>, i: int)
    requires
        0 <= i < bytes.len(),
    ensures
        spec_flat_digits(b, bytes).subrange(
            i * spec_digits_per_byte(b),
            (i + 1) * spec_digits_per_byte(b),
        ) == spec_byte_digits(b, bytes[i]),
    decreases bytes.len(),
{
    let d = spec_digits_per_byte(b);
    let flat = spec_flat_digits(b, bytes);
    let head = spec_flat_digits(b, bytes.drop_last());
    lemma_flat_digits_props(b, bytes.drop_last());
    lemma_val_digits_props(b, bytes.last() as int, d as nat);
    if i == bytes.len() - 1 {
        assert(flat.subrange(i * d, (i + 1) * d) =~= spec_byte_digits(b, bytes.last())) by {
            assert(i * d == head.len() && (i + 1) * d == flat.len()) by (nonlinear_arith)
                requires
                    head.len() == d * (bytes.len() - 1),
                    flat.len() == head.len() + d,
                    i == bytes.len() - 1,
            ;
        }
    } else {
        lemma_flat_digits_block(b, bytes.drop_last(), i);
        assert(flat.subrange(i * d, (i + 1) * d) =~= head.subrange(i * d, (i + 1) * d)) by {
            assert((i + 1) * d <= head.len()) by (nonlinear_arith)
                requires
                    head.len() == d * (bytes.len() - 1),
                    0 <= i < bytes.len() - 1,
                    d >= 2,
            ;
        }
        assert(bytes.drop_last()[i] == bytes[i]);
    }
}

/// Cleaning a space-separated encoding leaves exactly the concatenated
/// digit groups.
proof fn lemma_clean_encode_bytes(b: Base, bytes: Seq<u8>)
    ensures
        spec_clean(b, spec_encode_bytes(b, bytes)) == spec_flat_digits(b, bytes),
    decreases bytes.len(),
{
    let pred = |c: char| spec_is_digit(b, c);
    let d = spec_digits_per_byte(b);
    if bytes.len() == 0 {
        assert(spec_clean(b, spec_encode_bytes(b, bytes)) =~= spec_flat_digits(b, bytes)) by {
            reveal(Seq::filter);
        }
    } else if bytes.len() == 1 {
        lemma_val_digits_props(b, bytes[0] as int, d as nat);
        lemma_filter_all(spec_byte_digits(b, bytes[0]), pred);
        assert(spec_flat_digits(b, bytes.drop_last()) =~= Seq::<char>::empty());
        assert(spec_flat_digits(b, bytes) =~= spec_byte_digits(b, bytes[0]));
    } else {
        let head = spec_encode_bytes(b, bytes.drop_last());
        let group = spec_byte_digits(b, bytes.last());
        lemma_clean_encode_bytes(b, bytes.drop_last());
        lemma_val_digits_props(b, bytes.last() as int, d as nat);
        Seq::filter_distributes_over_add(head, seq![' '], pred);
        Seq::filter_distributes_over_add(head + seq![' '], group, pred);
        assert(seq![' '].filter(pred) =~= Seq::<char>::empty()) by {
            assert(forall|i: int| 0 <= i < 1 ==> !pred(#[trigger] seq![' '][i]));
            seq![' '].lemma_all_neg_filter_empty(pred);
        }
        lemma_filter_all(group, pred);
        assert((head + seq![' ']).filter(pred) == spec_flat_digits(b, bytes.drop_last()));
    }
}

/// Reading the concatenated digit groups back gives the bytes they encode.
proof fn lemma_bytes_of_flat_digits(b: Base, bytes: Seq<u8>)
    ensures
        spec_bytes_of_digits(b, spec_flat_digits(b, bytes)) == bytes,
{
    let d = spec_digits_per_byte(b);
    let flat = spec_flat_digits(b, bytes);
    lemma_flat_digits_props(b, bytes);
    lemma_radix_pow_byte(b);
    assert(flat.len() as int / d == bytes.len()) by (nonlinear_arith)
        requires
            flat.len() == d * bytes.len(),
            d >= 2,
    ;
    assert forall|i: int| 0 <= i < bytes.len() implies spec_bytes_of_digits(b, flat)[i]
        == bytes[i] by {
        lemma_flat_digits_block(b, bytes, i);
        lemma_val_digits_roundtrip(b, bytes[i] as int, d as nat);
    }
    assert(spec_bytes_of_digits(b, flat) =~= bytes);
}

/// Law: decoding an encoded text gives the text back, for every non-empty
/// text; the empty text encodes to the empty digit string, which `decode`
/// rejects.
pub proof fn lemma_encode_decode(b: Base, text: Seq<char>)
    requires
        text.len() > 0,
    ensures
        spec_decode(b, spec_encode(b, text)) == Some(text),
{
    let d = spec_digits_per_byte(b);
    let bytes = encode_utf8(text);
    lemma_encode_utf8_nonempty(text);
    lemma_clean_encode_bytes(b, bytes);
    lemma_flat_digits_props(b, bytes);
    let ds = spec_clean(b, spec_encode(b, text));
    assert(ds.len() == d * bytes.len());
    assert(ds.len() > 0 && ds.len() as int % d == 0) by (nonlinear_arith)
        requires
            ds.len() == d * bytes.len(),
            bytes.len() > 0,
            d >= 2,
    ;
    lemma_bytes_of_flat_digits(b, bytes);
    vstd::utf8::encode_utf8_valid_utf8(text);
    vstd::utf8::encode_utf8_decode_utf8(text);
}

/// Law: decoding succeeds only on a non-empty, whole number of byte groups
/// of cleaned digits; and where those digits encode valid UTF-8, that
/// length condition is also sufficient.
pub proof fn lemma_decode_succeeds_iff(b: Base, s: Seq<char>)
    ensures
        spec_decode(b, s) is Some ==> (spec_clean(b, s).len() > 0 && spec_clean(b, s).len() as int
            % spec_digits_per_byte(b) == 0),
        valid_utf8(spec_bytes_of_digits(b, spec_clean(b, s))) ==> (spec_decode(b, s) is Some <==> (
        spec_clean(b, s).len() > 0 && spec_clean(b, s).len() as int % spec_digits_per_byte(b)
            == 0)),
{
}

} // verus!

