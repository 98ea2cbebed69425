//! Fixed-point numbers with 26 bits before and 6 bits behind the point.
//!
//! A number is kept as its bits: the number times 64. Results that do not
//! fit stop at the largest or the smallest number.

use fixed::types::I26F6;
use vstd::prelude::*;

verus! {

/// The bits of 1.
pub const ONE: i32 = 64;

/// `v` where it is the bits of a number, else the nearest bits there are.
pub open spec fn clamped(v: int) -> int {
    if v < i32::MIN {
        i32::MIN as int
    } else if v > i32::MAX {
        i32::MAX as int
    } else {
        v
    }
}

/// `n / d` rounded towards zero.
pub open spec fn div_to_zero(n: int, d: int) -> int {
    if d == 0 {
        0
    } else if (n >= 0) == (d > 0) {
        abs(n) / abs(d)
    } else {
        -(abs(n) / abs(d))
    }
}

pub open spec fn abs(v: int) -> int {
    if v < 0 {
        -v
    } else {
        v
    }
}

/// The bits of the product, rounded down.
pub open spec fn spec_mul(a: int, b: int) -> int {
    clamped(a * b / 64)
}

/// The bits of the quotient, rounded towards zero; 0 where `b` is 0.
pub open spec fn spec_div(a: int, b: int) -> int {
    clamped(div_to_zero(a * 64, b))
}

pub open spec fn spec_add(a: int, b: int) -> int {
    clamped(a + b)
}

/// Calls `saturating_from_num` of fixed on a whole number, which gives the
/// number itself, or the nearest number there is where it does not fit.
#[verifier::external_body]
fn fixed_from_int(n: i32) -> (r: i32)
    ensures
        r == clamped(n * 64),
{
    I26F6::saturating_from_num(n).to_bits()
}

/// Calls `saturating_add` of fixed, which gives the sum, or the nearest
/// number there is where it does not fit.
#[verifier::external_body]
fn fixed_add(a: i32, b: i32) -> (r: i32)
    ensures
        r == spec_add(a as int, b as int),
{
    I26F6::from_bits(a).saturating_add(I26F6::from_bits(b)).to_bits()
}

/// Calls `saturating_mul` of fixed, which gives the product, rounded down,
/// or the nearest number there is where it does not fit.
#[verifier::external_body]
fn fixed_mul(a: i32, b: i32) -> (r: i32)
    ensures
        r == spec_mul(a as int, b as int),
{
    I26F6::from_bits(a).saturating_mul(I26F6::from_bits(b)).to_bits()
}

/// Calls `saturating_div` of fixed, which panics on a divisor of 0 and gives
/// the quotient, rounded towards zero, or the nearest number there is where
/// it does not fit.
#[verifier::external_body]
fn fixed_div(a: i32, b: i32) -> (r: i32)
    requires
        b != 0,
    ensures
        r == spec_div(a as int, b as int),
{
    I26F6::from_bits(a).saturating_div(I26F6::from_bits(b)).to_bits()
}

/// The bits of the whole number `n`.
pub fn from_int(n: i32) -> (r: i32)
    ensures
        r == clamped(n * 64),
{
    fixed_from_int(n)
}

pub fn fx_add(a: i32, b: i32) -> (r: i32)
    ensures
        r == spec_add(a as int, b as int),
{
    fixed_add(a, b)
}

pub fn fx_mul(a: i32, b: i32) -> (r: i32)
    ensures
        r == spec_mul(a as int, b as int),
{
    fixed_mul(a, b)
}

/// The quotient; 0 where the divisor is 0.
pub fn fx_div(a: i32, b: i32) -> (r: i32)
    ensures
        r == spec_div(a as int, b as int),
{
    if b == 0 {
        0
    } else {
        fixed_div(a, b)
    }
}

} // verus!
