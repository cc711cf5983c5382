//! Random values: integers, booleans, strings, bytes and ratios.
//!
//! Sampling itself is left to the `rand` crate; everything around it — range
//! normalisation, charset handling, error cases — is checked here, and the
//! contracts state what holds of every possible outcome.

use vstd::prelude::*;
use rand::Rng;
use crate::text::push_char;
use crate::types::error::SysxError;

verus! {

/// Relies on `rand::Rng::random_range` over `lo..=hi`: a sample that lies
/// within the inclusive range; it panics on an empty range, which the
/// precondition rules out.
#[verifier::external_body]
fn sample_i64_inclusive(lo: i64, hi: i64) -> (r: i64)
    requires
        lo <= hi,
    ensures
        lo <= r <= hi,
{
    rand::rng().random_range(lo..=hi)
}

/// Relies on `rand::Rng::random_range` over `0..n`: a sample below `n`; it
/// panics on an empty range, which the precondition rules out.
#[verifier::external_body]
fn sample_index(n: usize) -> (r: usize)
    requires
        n >= 1,
    ensures
        r < n,
{
    rand::rng().random_range(0..n)
}

/// Relies on `rand::distr::Alphanumeric`: a byte drawn from the ASCII
/// letters and digits.
#[verifier::external_body]
fn sample_alphanumeric() -> (r: u8)
    ensures
        (48 <= r <= 57) || (65 <= r <= 90) || (97 <= r <= 122),
{
    rand::rng().sample(rand::distr::Alphanumeric)
}

/// Relies on `rand::Rng::random::<u8>`: one random byte; nothing is promised
/// of its value.
#[verifier::external_body]
fn sample_byte() -> u8 {
    rand::rng().random()
}

/// Relies on `rand::Rng::random::<bool>`: a fair coin; nothing is promised
/// of the outcome.
#[verifier::external_body]
fn sample_bool() -> bool {
    rand::rng().random()
}

/// Relies on `rand::Rng::random_ratio`: true with probability
/// `numerator / denominator`; certain at the two ends, and it panics outside
/// the documented argument range, which the precondition rules out.
#[verifier::external_body]
fn sample_ratio(numerator: u32, denominator: u32) -> (r: bool)
    requires
        denominator > 0,
        numerator <= denominator,
    ensures
        numerator == denominator ==> r,
        numerator == 0 ==> !r,
{
    rand::rng().random_ratio(numerator, denominator)
}

/// Relies on `RangeInclusive::start`: the lower bound the range was built
/// with.
pub assume_specification<Idx>[ core::ops::RangeInclusive::<Idx>::start ](
    r: &core::ops::RangeInclusive<Idx>,
) -> (ret: &Idx)
    ensures
        *ret == r@.start,
;

/// Relies on `RangeInclusive::end`: the upper bound the range was built
/// with.
pub assume_specification<Idx>[ core::ops::RangeInclusive::<Idx>::end ](
    r: &core::ops::RangeInclusive<Idx>,
) -> (ret: &Idx)
    ensures
        *ret == r@.end,
;

/// True when `c` is an ASCII letter or digit.
pub open spec fn spec_is_alnum(c: char) -> bool {
    let u = c as u32;
    (48 <= u <= 57) || (65 <= u <= 90) || (97 <= u <= 122)
}

/// A random value within the inclusive range between `min` and `max`, taken
/// in either order.
pub fn random(min: i64, max: i64) -> (r: Result<i64, SysxError>)
    ensures
        r matches Ok(v) && (if min <= max {
            min <= v <= max
        } else {
            max <= v <= min
        }),
{
    if min <= max {
        Ok(sample_i64_inclusive(min, max))
    } else {
        Ok(sample_i64_inclusive(max, min))
    }
}

/// A random boolean; both outcomes are possible.
pub fn random_bool() -> (r: Result<bool, SysxError>)
    ensures
        r is Ok,
{
    Ok(sample_bool())
}

/// A random string of the given length. With a charset, every character is
/// drawn from it, and an empty charset is rejected; without one, the ASCII
/// letters and digits are used.
pub fn random_string(length: usize, charset: Option<&str>) -> (r: Result<String, SysxError>)
    ensures
        match charset {
            Some(cs) => {
                if cs@.len() == 0 {
                    r matches Err(e) && e matches SysxError::InvalidSyntax(_)
                } else {
                    r matches Ok(s) && s@.len() == length && (forall|i: int|
                        0 <= i < s@.len() ==> cs@.contains(#[trigger] s@[i]))
                }
            },
            None => r matches Ok(s) && s@.len() == length && (forall|i: int|
                0 <= i < s@.len() ==> spec_is_alnum(#[trigger] s@[i])),
        },
{
    match charset {
        Some(cs) => {
            let chars = crate::text::str_chars(cs);
            let n = chars.len();
            if n == 0 {
                return Err(SysxError::InvalidSyntax("Provided charset is empty".to_owned()));
            }
            let mut out = String::new();
            let mut i: usize = 0;
            while i < length
                invariant
                    i <= length,
                    n == chars@.len(),
                    n >= 1,
                    chars@ == cs@,
                    out@.len() == i,
                    forall|j: int| 0 <= j < i ==> cs@.contains(#[trigger] out@[j]),
                decreases length - i,
            {
                let idx = sample_index(n);
                push_char(&mut out, chars[idx]);
                i = i + 1;
            }
            Ok(out)
        },
        None => {
            let mut out = String::new();
            let mut i: usize = 0;
            while i < length
                invariant
                    i <= length,
                    out@.len() == i,
                    forall|j: int| 0 <= j < i ==> spec_is_alnum(#[trigger] out@[j]),
                decreases length - i,
            {
                let b = sample_alphanumeric();
                push_char(&mut out, b as char);
                i = i + 1;
            }
            Ok(out)
        },
    }
}

/// A vector of random bytes of the given length.
pub fn random_bytes(length: usize) -> (r: Result<Vec<u8>, SysxError>)
    ensures
        r matches Ok(v) && v@.len() == length,
{
    let mut out: Vec<u8> = Vec::new();
    let mut i: usize = 0;
    while i < length
        invariant
            i <= length,
            out@.len() == i,
        decreases length - i,
    {
        out.push(sample_byte());
        i = i + 1;
    }
    Ok(out)
}

/// A source of random values within a fixed inclusive range.
pub struct RandomIter {
    lo: i64,
    hi: i64,
}

impl RandomIter {
    /// The lower bound of the values handed out.
    pub closed spec fn spec_lo(&self) -> i64 {
        self.lo
    }

    /// The upper bound of the values handed out.
    pub closed spec fn spec_hi(&self) -> i64 {
        self.hi
    }

    /// Well-formed: the range is non-empty.
    pub open spec fn wf(&self) -> bool {
        self.spec_lo() <= self.spec_hi()
    }

    /// The next random value; the source never runs dry.
    pub fn next(&mut self) -> (r: Option<i64>)
        requires
            old(self).wf(),
        ensures
            *final(self) == *old(self),
            r matches Some(v) && old(self).spec_lo() <= v <= old(self).spec_hi(),
    {
        Some(sample_i64_inclusive(self.lo, self.hi))
    }
}

/// An endless source of random values within the inclusive range between
/// `min` and `max`, taken in either order.
pub fn random_iter(min: i64, max: i64) -> (r: Result<RandomIter, SysxError>)
    ensures
        r matches Ok(it) && it.wf() && (if min <= max {
            it.spec_lo() == min && it.spec_hi() == max
        } else {
            it.spec_lo() == max && it.spec_hi() == min
        }),
{
    if min <= max {
        Ok(RandomIter { lo: min, hi: max })
    } else {
        Ok(RandomIter { lo: max, hi: min })
    }
}

/// A random value from an inclusive range; an empty range is rejected.
pub fn random_range(range: core::ops::RangeInclusive<i64>) -> (r: Result<i64, SysxError>)
    ensures
        range@.start <= range@.end ==> (r matches Ok(v) && range@.start <= v <= range@.end),
        range@.start > range@.end ==> (r matches Err(e) && e matches SysxError::RandomError(_)),
{
    let start = *range.start();
    let end = *range.end();
    if start <= end {
        Ok(sample_i64_inclusive(start, end))
    } else {
        Err(SysxError::RandomError("empty range".to_owned()))
    }
}

/// A random boolean that is true with probability
/// `numerator / denominator`; a zero denominator is rejected, and a
/// numerator above the denominator is ruled out.
pub fn random_ratio(numerator: u32, denominator: u32) -> (r: Result<bool, SysxError>)
    requires
        denominator == 0 || numerator <= denominator,
    ensures
        denominator == 0 ==> (r matches Err(e) && e matches SysxError::InvalidSyntax(_)),
        denominator > 0 ==> (r matches Ok(v) && (numerator == denominator ==> v) && (numerator == 0
            ==> !v)),
{
    if denominator == 0 {
        return Err(SysxError::InvalidSyntax("Denominator cannot be zero".to_owned()));
    }
    Ok(sample_ratio(numerator, denominator))
}

} // verus!
