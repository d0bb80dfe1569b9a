//! The numeric values of the language: IEEE-754 binary64 numbers, carried as
//! their bit patterns (`u64`). The arithmetic and the numeral parsing are done
//! by `rustc_apfloat`, a bit-exact software implementation of IEEE-754, behind
//! the trusted wrappers below; each result is named by an uninterpreted spec
//! function of the operands' bit patterns, which the interpreter's contracts
//! then speak of.

use crate::lexer::{dot_count, is_digit, is_numeral_char};
use rustc_apfloat::ieee::Double;
use rustc_apfloat::Float;
use vstd::prelude::*;

verus! {

/// The bit pattern of the IEEE-754 binary64 sum `a + b`
/// (round to nearest, ties to even), of operands given as bit patterns.
pub uninterp spec fn add_bits(a: u64, b: u64) -> u64;

/// The bit pattern of the IEEE-754 binary64 difference `a - b`.
pub uninterp spec fn sub_bits(a: u64, b: u64) -> u64;

/// The bit pattern of the IEEE-754 binary64 product `a * b`.
pub uninterp spec fn mul_bits(a: u64, b: u64) -> u64;

/// The bit pattern of the IEEE-754 binary64 quotient `a / b`
/// (division by zero gives an infinity or NaN, never an error).
pub uninterp spec fn div_bits(a: u64, b: u64) -> u64;

/// The bit pattern of the IEEE-754 binary64 value of a decimal numeral span:
/// the correctly rounded standard decimal parse, a function of the
/// characters alone.
pub uninterp spec fn numeral_value(s: Seq<char>) -> u64;

/// Relies on `rustc_apfloat::ieee::Double`'s addition: IEEE-754 binary64,
/// round to nearest ties to even, a function of the operand bits alone.
#[verifier::external_body]
pub(crate) fn val_add(a: u64, b: u64) -> (r: u64)
    ensures
        r == add_bits(a, b),
{
    (Double::from_bits(a as u128) + Double::from_bits(b as u128)).value.to_bits() as u64
}

/// Relies on `rustc_apfloat::ieee::Double`'s subtraction: IEEE-754 binary64,
/// round to nearest ties to even, a function of the operand bits alone.
#[verifier::external_body]
pub(crate) fn val_sub(a: u64, b: u64) -> (r: u64)
    ensures
        r == sub_bits(a, b),
{
    (Double::from_bits(a as u128) - Double::from_bits(b as u128)).value.to_bits() as u64
}

/// Relies on `rustc_apfloat::ieee::Double`'s multiplication: IEEE-754
/// binary64, round to nearest ties to even, a function of the operand bits
/// alone.
#[verifier::external_body]
pub(crate) fn val_mul(a: u64, b: u64) -> (r: u64)
    ensures
        r == mul_bits(a, b),
{
    (Double::from_bits(a as u128) * Double::from_bits(b as u128)).value.to_bits() as u64
}

/// Relies on `rustc_apfloat::ieee::Double`'s division: IEEE-754 binary64,
/// round to nearest ties to even, a function of the operand bits alone;
/// division by zero yields an infinity or NaN, never an error or a panic.
#[verifier::external_body]
pub(crate) fn val_div(a: u64, b: u64) -> (r: u64)
    ensures
        r == div_bits(a, b),
{
    (Double::from_bits(a as u128) / Double::from_bits(b as u128)).value.to_bits() as u64
}

/// Relies on `rustc_apfloat`'s `from_str` for `Double`: the correctly rounded
/// IEEE-754 binary64 value of a decimal numeral, a function of the characters
/// alone. On a span led by a digit and made of digits and at most one `.`,
/// parsing always succeeds and never panics: a numeral too large rounds to
/// infinity, one too small to zero.
#[verifier::external_body]
pub(crate) fn parse_numeral(s: &str) -> (r: u64)
    requires
        s@.len() >= 1,
        is_digit(s@[0]),
        forall|i: int| 0 <= i < s@.len() ==> is_numeral_char(#[trigger] s@[i]),
        dot_count(s@) <= 1,
    ensures
        r == numeral_value(s@),
{
    let d: Double = s.parse().unwrap();
    d.to_bits() as u64
}

} // verus!
