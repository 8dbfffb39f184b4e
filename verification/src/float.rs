//! IEEE 754 double-precision values, carried as their 64-bit patterns.
//!
//! The language has floating-point literals and arithmetic, but this crate
//! stores every such value as the `u64` bit pattern of the IEEE 754 double it
//! denotes.  The arithmetic itself is done by the `rustc_apfloat` crate, a
//! software implementation of IEEE 754 binary64, behind the trusted wrappers
//! below.  Each operation is a pure function of the operand bit patterns, so
//! each result is given a name that the wrappers' contracts and the
//! evaluator's specification share.
use vstd::prelude::*;

use rustc_apfloat::Float;
use rustc_apfloat::ieee::Double;

verus! {

/// Mask that clears the sign bit of a double's bit pattern.
pub const FLOAT_ABS_MASK: u64 = 0x7fff_ffff_ffff_ffff;

/// A bit pattern denotes zero exactly when everything but the sign bit is 0;
/// IEEE 754 doubles have the two zeroes +0.0 and -0.0 and no other.
pub open spec fn is_zero_bits(b: u64) -> bool {
    b & FLOAT_ABS_MASK == 0
}

/// Bit pattern of the double a decimal literal denotes, or `None` where the
/// text is not a valid decimal number; depends on the text alone.
pub uninterp spec fn float_of_dec(s: Seq<char>) -> Option<u64>;

/// Bit pattern of the IEEE 754 sum of the doubles with patterns `a` and `b`.
pub uninterp spec fn float_add_bits(a: u64, b: u64) -> u64;

/// Bit pattern of the IEEE 754 difference of the doubles `a` and `b`.
pub uninterp spec fn float_sub_bits(a: u64, b: u64) -> u64;

/// Bit pattern of the IEEE 754 product of the doubles `a` and `b`.
pub uninterp spec fn float_mul_bits(a: u64, b: u64) -> u64;

/// Bit pattern of the IEEE 754 quotient of the doubles `a` and `b`.
pub uninterp spec fn float_div_bits(a: u64, b: u64) -> u64;

/// IEEE 754 comparison of the doubles `a` and `b`; `None` where unordered
/// (one of them is a NaN).
pub uninterp spec fn float_cmp_bits(a: u64, b: u64) -> Option<core::cmp::Ordering>;

/// Bit pattern of the double nearest to the integer `i`.
pub uninterp spec fn float_of_int(i: i64) -> u64;

/// Decimal rendering of the double with bit pattern `b`.
pub uninterp spec fn dec_of_float(b: u64) -> Seq<char>;

/// The doubles `a` and `b` compare equal (IEEE equality, not bit equality).
pub open spec fn float_eq(a: u64, b: u64) -> bool {
    float_cmp_bits(a, b) == Some(core::cmp::Ordering::Equal)
}

/// The double `a` is strictly less than the double `b`.
pub open spec fn float_lt(a: u64, b: u64) -> bool {
    float_cmp_bits(a, b) == Some(core::cmp::Ordering::Less)
}

/// The double `a` is strictly greater than the double `b`.
pub open spec fn float_gt(a: u64, b: u64) -> bool {
    float_cmp_bits(a, b) == Some(core::cmp::Ordering::Greater)
}

/// The double `a` is less than or equal to the double `b`.
pub open spec fn float_le(a: u64, b: u64) -> bool {
    float_lt(a, b) || float_eq(a, b)
}

/// The double `a` is greater than or equal to the double `b`.
pub open spec fn float_ge(a: u64, b: u64) -> bool {
    float_gt(a, b) || float_eq(a, b)
}

/// Relies on `rustc_apfloat`'s `FromStr` for `ieee::Double`: parsing a
/// decimal string is a function of the text alone.
#[verifier::external_body]
pub fn parse_float_bits(s: &str) -> (r: Option<u64>)
    ensures
        r == float_of_dec(s@),
{
    match s.parse::<Double>() {
        Ok(d) => Some(d.to_bits() as u64),
        Err(_) => None,
    }
}

/// Relies on `core::ops::Add` for `ieee::Double`: the correctly rounded
/// IEEE 754 sum, a function of the operand bit patterns alone.
#[verifier::external_body]
pub fn float_add(a: u64, b: u64) -> (r: u64)
    ensures
        r == float_add_bits(a, b),
{
    (Double::from_bits(a as u128) + Double::from_bits(b as u128)).value.to_bits() as u64
}

/// Relies on `core::ops::Sub` for `ieee::Double`: the correctly rounded
/// IEEE 754 difference, a function of the operand bit patterns alone.
#[verifier::external_body]
pub fn float_sub(a: u64, b: u64) -> (r: u64)
    ensures
        r == float_sub_bits(a, b),
{
    (Double::from_bits(a as u128) - Double::from_bits(b as u128)).value.to_bits() as u64
}

/// Relies on `core::ops::Mul` for `ieee::Double`: the correctly rounded
/// IEEE 754 product, a function of the operand bit patterns alone.
#[verifier::external_body]
pub fn float_mul(a: u64, b: u64) -> (r: u64)
    ensures
        r == float_mul_bits(a, b),
{
    (Double::from_bits(a as u128) * Double::from_bits(b as u128)).value.to_bits() as u64
}

/// Relies on `core::ops::Div` for `ieee::Double`: the correctly rounded
/// IEEE 754 quotient, a function of the operand bit patterns alone.
#[verifier::external_body]
pub fn float_div(a: u64, b: u64) -> (r: u64)
    ensures
        r == float_div_bits(a, b),
{
    (Double::from_bits(a as u128) / Double::from_bits(b as u128)).value.to_bits() as u64
}

/// Relies on `PartialOrd` for `ieee::Double`: the IEEE 754 comparison of two
/// doubles, `None` exactly where one operand is a NaN.
#[verifier::external_body]
pub fn float_cmp(a: u64, b: u64) -> (r: Option<core::cmp::Ordering>)
    ensures
        r == float_cmp_bits(a, b),
{
    Double::from_bits(a as u128).partial_cmp(&Double::from_bits(b as u128))
}

/// Relies on `rustc_apfloat::Float::from_i128`: the double nearest to an
/// integer, a function of the integer alone.
#[verifier::external_body]
pub fn int_to_float(i: i64) -> (r: u64)
    ensures
        r == float_of_int(i),
{
    Double::from_i128(i as i128).value.to_bits() as u64
}

/// Relies on `Display` for `ieee::Double`: a decimal rendering that depends
/// on the bit pattern alone.  The width option is the formatter's padding
/// allowance: with 17 allowed, every value whose magnitude lies within
/// seventeen decimal places of one prints in plain decimal digits, and only
/// values beyond that fall back to exponent notation.
#[verifier::external_body]
pub fn float_to_string(b: u64) -> (r: String)
    ensures
        r@ == dec_of_float(b),
{
    format!("{:17}", Double::from_bits(b as u128))
}

/// Tests whether the double with bit pattern `b` is a zero.
pub fn float_is_zero(b: u64) -> (r: bool)
    ensures
        r == is_zero_bits(b),
{
    b & FLOAT_ABS_MASK == 0
}

} // verus!
