//! Double-precision values of the language, held as their IEEE-754 bit
//! patterns. Comparison, equality and negation are bit-level and verified
//! here; rounding arithmetic, literal parsing and rendering are done by a
//! software floating-point library behind trusted wrappers, each result
//! named by an uninterpreted function of the operand bits.

use rustc_apfloat::ieee::Double;
use rustc_apfloat::Float;
use vstd::prelude::*;

verus! {

/// The sign bit of a double's bit pattern is set.
pub open spec fn f64_is_negative(b: u64) -> bool {
    b & 0x8000_0000_0000_0000 != 0
}

/// The bit pattern encodes a NaN: exponent all ones, mantissa nonzero.
pub open spec fn f64_is_nan(b: u64) -> bool {
    (b & 0x7fff_ffff_ffff_ffff) > 0x7ff0_0000_0000_0000
}

/// The bit pattern encodes positive or negative zero.
pub open spec fn f64_is_zero(b: u64) -> bool {
    (b & 0x7fff_ffff_ffff_ffff) == 0
}

/// IEEE-754 equality on bit patterns: NaN equals nothing, the two zeros
/// are equal, and every other value equals only its own bit pattern.
pub open spec fn f64_eq(x: u64, y: u64) -> bool {
    if f64_is_nan(x) || f64_is_nan(y) {
        false
    } else if f64_is_zero(x) && f64_is_zero(y) {
        true
    } else {
        x == y
    }
}

/// IEEE-754 ordering on bit patterns: any comparison with a NaN is false;
/// otherwise same-signed patterns order by magnitude and a negative value
/// is below a positive one. Within one sign, the bit patterns of doubles
/// are monotone in the encoded value.
pub open spec fn f64_lt(x: u64, y: u64) -> bool {
    if f64_is_nan(x) || f64_is_nan(y) {
        false
    } else if f64_is_zero(x) && f64_is_zero(y) {
        false
    } else if f64_is_negative(x) != f64_is_negative(y) {
        f64_is_negative(x)
    } else if !f64_is_negative(x) {
        x < y
    } else {
        y < x
    }
}

/// Non-strict IEEE-754 ordering: false on NaN, otherwise equal-or-below.
pub open spec fn f64_le(x: u64, y: u64) -> bool {
    f64_eq(x, y) || f64_lt(x, y)
}

/// IEEE-754 negation: the sign bit flips, nothing else changes.
pub open spec fn f64_neg(b: u64) -> u64 {
    b ^ 0x8000_0000_0000_0000
}

pub(crate) fn f64_eq_bits(x: u64, y: u64) -> (r: bool)
    ensures
        r == f64_eq(x, y),
{
    let xa = x & 0x7fff_ffff_ffff_ffff;
    let ya = y & 0x7fff_ffff_ffff_ffff;
    if xa > 0x7ff0_0000_0000_0000 || ya > 0x7ff0_0000_0000_0000 {
        false
    } else if xa == 0 && ya == 0 {
        true
    } else {
        x == y
    }
}

pub(crate) fn f64_lt_bits(x: u64, y: u64) -> (r: bool)
    ensures
        r == f64_lt(x, y),
{
    let xa = x & 0x7fff_ffff_ffff_ffff;
    let ya = y & 0x7fff_ffff_ffff_ffff;
    let xn = x & 0x8000_0000_0000_0000 != 0;
    let yn = y & 0x8000_0000_0000_0000 != 0;
    if xa > 0x7ff0_0000_0000_0000 || ya > 0x7ff0_0000_0000_0000 {
        false
    } else if xa == 0 && ya == 0 {
        false
    } else if xn != yn {
        xn
    } else if !xn {
        x < y
    } else {
        y < x
    }
}

pub(crate) fn f64_le_bits(x: u64, y: u64) -> (r: bool)
    ensures
        r == f64_le(x, y),
{
    f64_eq_bits(x, y) || f64_lt_bits(x, y)
}

pub(crate) fn f64_neg_bits(b: u64) -> (r: u64)
    ensures
        r == f64_neg(b),
{
    b ^ 0x8000_0000_0000_0000
}

/// The bit pattern of the rounded sum of the doubles encoded by `x` and `y`.
pub uninterp spec fn f64_add(x: u64, y: u64) -> u64;

/// The bit pattern of the rounded difference of the encoded doubles.
pub uninterp spec fn f64_sub(x: u64, y: u64) -> u64;

/// The bit pattern of the rounded product of the encoded doubles.
pub uninterp spec fn f64_mul(x: u64, y: u64) -> u64;

/// The bit pattern of the rounded quotient of the encoded doubles.
pub uninterp spec fn f64_div(x: u64, y: u64) -> u64;

/// The bit pattern the given decimal text parses to.
pub uninterp spec fn f64_of_text(s: Seq<char>) -> u64;

/// The decimal rendering of the double encoded by the given bit pattern.
pub uninterp spec fn f64_text(b: u64) -> Seq<char>;

/// Relies on rustc_apfloat's `Double` addition (`Float::add_r`): IEEE-754
/// addition, rounded to nearest, ties to even, a function of the two bit
/// patterns alone.
#[verifier::external_body]
pub(crate) fn f64_add_bits(x: u64, y: u64) -> (r: u64)
    ensures
        r == f64_add(x, y),
{
    (Double::from_bits(x as u128) + Double::from_bits(y as u128)).value.to_bits() as u64
}

/// Relies on rustc_apfloat's `Double` subtraction (`Float::sub_r`): IEEE-754
/// subtraction, rounded to nearest, ties to even.
#[verifier::external_body]
pub(crate) fn f64_sub_bits(x: u64, y: u64) -> (r: u64)
    ensures
        r == f64_sub(x, y),
{
    (Double::from_bits(x as u128) - Double::from_bits(y as u128)).value.to_bits() as u64
}

/// Relies on rustc_apfloat's `Double` multiplication (`Float::mul_r`):
/// IEEE-754 multiplication, rounded to nearest, ties to even.
#[verifier::external_body]
pub(crate) fn f64_mul_bits(x: u64, y: u64) -> (r: u64)
    ensures
        r == f64_mul(x, y),
{
    (Double::from_bits(x as u128) * Double::from_bits(y as u128)).value.to_bits() as u64
}

/// Relies on rustc_apfloat's `Double` division (`Float::div_r`): IEEE-754
/// division, rounded to nearest, ties to even.
#[verifier::external_body]
pub(crate) fn f64_div_bits(x: u64, y: u64) -> (r: u64)
    ensures
        r == f64_div(x, y),
{
    (Double::from_bits(x as u128) / Double::from_bits(y as u128)).value.to_bits() as u64
}

/// Relies on rustc_apfloat's `Double::from_str`: parses decimal text to the
/// correctly rounded double, a function of the text alone. Text that does
/// not parse is mapped to the zero pattern, deterministically.
#[verifier::external_body]
pub(crate) fn f64_parse(s: &str) -> (r: u64)
    ensures
        r == f64_of_text(s@),
{
    match s.parse::<Double>() {
        Ok(d) => d.to_bits() as u64,
        Err(_) => 0,
    }
}

/// Relies on rustc_apfloat's `Display` for `Double`: a decimal rendering
/// determined by the bit pattern alone.
#[verifier::external_body]
pub(crate) fn f64_render(b: u64) -> (r: String)
    ensures
        r@ == f64_text(b),
{
    format!("{}", Double::from_bits(b as u128))
}

} // verus!
