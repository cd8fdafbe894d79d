//! Integer helpers: rounding-up division and checked conversions between
//! signed and unsigned widths.

use num_integer::Integer;
use num_traits::ToPrimitive;
use vstd::prelude::*;

verus! {

/// The least integer not below the rational `a / b`, for a positive `b`.
pub open spec fn ceil_div(a: int, b: int) -> int
    recommends
        b > 0,
{
    if a % b == 0 {
        a / b
    } else {
        a / b + 1
    }
}

/// `num_integer::Integer::div_ceil` at `u64`. For a non-zero divisor it computes
/// `a / b`, plus one where the remainder is not zero.
#[verifier::external_body]
pub(crate) fn div_ceil_u64(a: u64, b: u64) -> (q: u64)
    requires
        b != 0,
    ensures
        q == ceil_div(a as int, b as int),
{
    Integer::div_ceil(&a, &b)
}

/// `num_integer::Integer::div_ceil` at `i64`. For a positive divisor it takes the
/// truncated quotient and adds one where the remainder is positive, which is the
/// quotient rounded towards positive infinity.
#[verifier::external_body]
pub(crate) fn div_ceil_i64(a: i64, b: i64) -> (q: i64)
    requires
        b > 0,
    ensures
        q == ceil_div(a as int, b as int),
{
    Integer::div_ceil(&a, &b)
}

/// `num_traits::ToPrimitive::to_i32` at `u32`: the same number where it is at
/// most `i32::MAX`, and nothing otherwise.
#[verifier::external_body]
pub(crate) fn u32_to_i32(v: u32) -> (r: Option<i32>)
    ensures
        v <= i32::MAX ==> r == Some(v as i32),
        v > i32::MAX ==> r is None,
{
    v.to_i32()
}

/// `num_traits::ToPrimitive::to_u32` at `i32`: the same number where it is not
/// negative, and nothing otherwise.
#[verifier::external_body]
pub(crate) fn i32_to_u32(v: i32) -> (r: Option<u32>)
    ensures
        v >= 0 ==> r == Some(v as u32),
        v < 0 ==> r is None,
{
    v.to_u32()
}

} // verus!
