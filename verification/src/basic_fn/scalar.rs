//! Scalar and tuple helpers: the arithmetic operators as first-class
//! functions, parity and sign tests, tuple projections and the constant
//! function builder.

use vstd::prelude::*;

use crate::basic_fn::model::{div_trunc, rem_trunc};

verus! {

/// The absolute value: `x` for nonnegative `x`, `-x` otherwise.
pub fn abs(x: i64) -> (r: i64)
    requires
        x != i64::MIN,
    ensures
        r == if x < 0 {
            -(x as int)
        } else {
            x as int
        },
{
    if x < 0 {
        -x
    } else {
        x
    }
}

/// The sign of `x` as -1, 0 or 1.
pub fn signum(x: i64) -> (r: i64)
    ensures
        r == if x < 0 {
            -1int
        } else if x > 0 {
            1int
        } else {
            0int
        },
{
    if x < 0 {
        -1
    } else if x > 0 {
        1
    } else {
        0
    }
}

/// 1 / x, truncating toward zero; zero is left out.
pub fn recip(x: i64) -> (r: i64)
    requires
        x != 0,
    ensures
        r == div_trunc(1, x as int),
{
    crate::basic_fn::fun::div(1, x)
}

/// Whether the remainder of x / 2 is zero.
pub fn even(x: i64) -> (r: bool)
    ensures
        r == (rem_trunc(x as int, 2) == 0),
{
    x % 2 == 0
}

/// Whether the remainder of x / 2 is one; on negative odd numbers that
/// remainder is negative, so this answers false there.
pub fn odd(x: i64) -> (r: bool)
    ensures
        r == (rem_trunc(x as int, 2) == 1),
{
    x % 2 == 1
}

/// The first component of a pair.
pub fn fst<A, B>(t: (A, B)) -> (r: A)
    ensures
        r == t.0,
{
    t.0
}

/// The second component of a pair.
pub fn snd<A, B>(t: (A, B)) -> (r: B)
    ensures
        r == t.1,
{
    t.1
}

/// The constant function: keeps the fixed value `x` and discards `y`.
pub fn always<T, U>(x: T, y: U) -> (r: T)
    ensures
        r == x,
{
    x
}

} // verus!
