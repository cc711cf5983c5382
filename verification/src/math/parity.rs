//! Parity checks over the primitive integer types.

use vstd::prelude::*;

verus! {

/// An integer type whose parity can be taken.
pub trait Parity: Sized + Copy {
    /// The mathematical value of the number.
    spec fn as_int(self) -> int;

    /// Whether the number is even.
    fn even(self) -> (r: bool)
        ensures
            r == (self.as_int() % 2 == 0),
    ;
}

impl Parity for u8 {
    open spec fn as_int(self) -> int {
        self as int
    }

    fn even(self) -> (r: bool)
        ensures
            r == (self.as_int() % 2 == 0),
    {
        self % 2 == 0
    }
}

impl Parity for u16 {
    open spec fn as_int(self) -> int {
        self as int
    }

    fn even(self) -> (r: bool)
        ensures
            r == (self.as_int() % 2 == 0),
    {
        self % 2 == 0
    }
}

impl Parity for u32 {
    open spec fn as_int(self) -> int {
        self as int
    }

    fn even(self) -> (r: bool)
        ensures
            r == (self.as_int() % 2 == 0),
    {
        self % 2 == 0
    }
}

impl Parity for u64 {
    open spec fn as_int(self) -> int {
        self as int
    }

    fn even(self) -> (r: bool)
        ensures
            r == (self.as_int() % 2 == 0),
    {
        self % 2 == 0
    }
}

impl Parity for usize {
    open spec fn as_int(self) -> int {
        self as int
    }

    fn even(self) -> (r: bool)
        ensures
            r == (self.as_int() % 2 == 0),
    {
        self % 2 == 0
    }
}

impl Parity for i8 {
    open spec fn as_int(self) -> int {
        self as int
    }

    fn even(self) -> (r: bool)
        ensures
            r == (self.as_int() % 2 == 0),
    {
        self % 2 == 0
    }
}

impl Parity for i16 {
    open spec fn as_int(self) -> int {
        self as int
    }

    fn even(self) -> (r: bool)
        ensures
            r == (self.as_int() % 2 == 0),
    {
        self % 2 == 0
    }
}

impl Parity for i32 {
    open spec fn as_int(self) -> int {
        self as int
    }

    fn even(self) -> (r: bool)
        ensures
            r == (self.as_int() % 2 == 0),
    {
        self % 2 == 0
    }
}

impl Parity for i64 {
    open spec fn as_int(self) -> int {
        self as int
    }

    fn even(self) -> (r: bool)
        ensures
            r == (self.as_int() % 2 == 0),
    {
        self % 2 == 0
    }
}

impl Parity for isize {
    open spec fn as_int(self) -> int {
        self as int
    }

    fn even(self) -> (r: bool)
        ensures
            r == (self.as_int() % 2 == 0),
    {
        self % 2 == 0
    }
}

/// Whether a number is even.
pub fn is_even<T: Parity>(num: T) -> (r: bool)
    ensures
        r == (num.as_int() % 2 == 0),
{
    num.even()
}

/// Whether a number is odd.
pub fn is_odd<T: Parity>(num: T) -> (r: bool)
    ensures
        r == (num.as_int() % 2 != 0),
{
    !num.even()
}

/// Both parities of a number at once: the first component says it is even,
/// the second, that it is odd, and the two always disagree.
pub fn is_even_or_odd<T: Parity>(num: T) -> (r: (bool, bool))
    ensures
        r.0 == (num.as_int() % 2 == 0),
        r.1 == (num.as_int() % 2 != 0),
        r.1 == !r.0,
{
    let e = num.even();
    (e, !e)
}

} // verus!
