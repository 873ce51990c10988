//! Double-precision number support for the value domain.
//!
//! Numbers are carried everywhere as their IEEE 754 binary64 bit pattern
//! (a `u64`), so that the rest of the library can be verified over plain
//! integers.  The arithmetic itself is done by the `rustc_apfloat` crate,
//! which implements binary64 arithmetic directly on bit patterns with
//! round-to-nearest-even, the rounding mode of ordinary hardware doubles.
use vstd::prelude::*;

use rustc_apfloat::ieee::Double;
use rustc_apfloat::Float;

verus! {

/// The bit pattern of the sum of two doubles, named: the exact rounded
/// result takes pages to state, but depends on the operands alone.
pub uninterp spec fn add_bits(a: u64, b: u64) -> u64;

/// The bit pattern of the difference `a - b` of two doubles.
pub uninterp spec fn sub_bits(a: u64, b: u64) -> u64;

/// The bit pattern of the product of two doubles.
pub uninterp spec fn mul_bits(a: u64, b: u64) -> u64;

/// The bit pattern of the quotient `a / b` of two doubles.
pub uninterp spec fn div_bits(a: u64, b: u64) -> u64;

/// Whether the double `a` compares strictly below the double `b`.
pub uninterp spec fn lt_bits(a: u64, b: u64) -> bool;

/// Whether two doubles compare equal (so distinct zero signs are equal,
/// and a NaN is equal to nothing).
pub uninterp spec fn eq_bits(a: u64, b: u64) -> bool;

/// The bit pattern denoted by a numeric literal (digits, optionally
/// followed by a point and digits), rounded to the nearest double.
pub uninterp spec fn bits_of_number_lexeme(s: Seq<char>) -> u64;

/// The decimal rendering of the double with the given bit pattern.
pub uninterp spec fn number_text(bits: u64) -> Seq<char>;

/// Negating a double flips its sign bit and changes nothing else.
pub open spec fn neg_bits(a: u64) -> u64 {
    a ^ 0x8000_0000_0000_0000u64
}

/// Negation undoes itself: the sign bit is flipped back.
pub proof fn lemma_double_negation(a: u64)
    ensures
        neg_bits(neg_bits(a)) == a,
{
    assert((a ^ 0x8000_0000_0000_0000u64) ^ 0x8000_0000_0000_0000u64 == a) by (bit_vector);
}

/// Arithmetic negation of a double, as a sign-bit flip.
pub fn num_neg(a: u64) -> (r: u64)
    ensures
        r == neg_bits(a),
{
    a ^ 0x8000_0000_0000_0000u64
}

/// Relies on `rustc_apfloat::ieee::Double`'s `Add` (round to nearest,
/// ties to even): the sum depends on the two operands alone.
#[verifier::external_body]
pub fn num_add(a: u64, b: u64) -> (r: u64)
    ensures
        r == add_bits(a, b),
{
    (Double::from_bits(a as u128) + Double::from_bits(b as u128)).value.to_bits() as u64
}

/// Relies on `rustc_apfloat::ieee::Double`'s `Sub` (round to nearest,
/// ties to even): the difference depends on the two operands alone.
#[verifier::external_body]
pub fn num_sub(a: u64, b: u64) -> (r: u64)
    ensures
        r == sub_bits(a, b),
{
    (Double::from_bits(a as u128) - Double::from_bits(b as u128)).value.to_bits() as u64
}

/// Relies on `rustc_apfloat::ieee::Double`'s `Mul` (round to nearest,
/// ties to even): the product depends on the two operands alone.
#[verifier::external_body]
pub fn num_mul(a: u64, b: u64) -> (r: u64)
    ensures
        r == mul_bits(a, b),
{
    (Double::from_bits(a as u128) * Double::from_bits(b as u128)).value.to_bits() as u64
}

/// Relies on `rustc_apfloat::ieee::Double`'s `Div` (round to nearest,
/// ties to even): the quotient depends on the two operands alone.
#[verifier::external_body]
pub fn num_div(a: u64, b: u64) -> (r: u64)
    ensures
        r == div_bits(a, b),
{
    (Double::from_bits(a as u128) / Double::from_bits(b as u128)).value.to_bits() as u64
}

/// Relies on `rustc_apfloat::ieee::Double`'s `PartialOrd`: the ordering
/// of two doubles depends on the operands alone.
#[verifier::external_body]
pub fn num_lt(a: u64, b: u64) -> (r: bool)
    ensures
        r == lt_bits(a, b),
{
    Double::from_bits(a as u128) < Double::from_bits(b as u128)
}

/// Relies on `rustc_apfloat::ieee::Double`'s `PartialEq`: whether two
/// doubles compare equal depends on the operands alone, and the
/// comparison is symmetric (it goes through `partial_cmp`).
#[verifier::external_body]
pub fn num_eq(a: u64, b: u64) -> (r: bool)
    ensures
        r == eq_bits(a, b),
        r == eq_bits(b, a),
{
    Double::from_bits(a as u128) == Double::from_bits(b as u128)
}

/// Relies on `rustc_apfloat::ieee::Double`'s `FromStr`, which rounds a
/// decimal literal to the nearest double; a lexeme of digits with an
/// optional fraction is always accepted.
#[verifier::external_body]
pub fn num_from_lexeme(s: &str) -> (r: u64)
    requires
        is_number_lexeme(s@),
    ensures
        r == bits_of_number_lexeme(s@),
{
    match s.parse::<Double>() {
        Ok(d) => d.to_bits() as u64,
        // unreachable under the requires: every admitted lexeme parses
        Err(_) => 0,
    }
}

/// Relies on `rustc_apfloat::ieee::Double`'s `Display`, which renders a
/// decimal form with enough digits to read back as the same double and
/// no trailing zeros.  This rendering is the deliberate price of
/// computing on bit patterns end to end: it prints plain decimal for
/// ordinary magnitudes (`5`, `1.2`, `0.30000000000000004`), but unlike
/// the usual hardware-float formatting it switches to scientific
/// notation once more than a few zeros would pad (`1.0E+5` rather than
/// `100000`), and prints `+Inf`, `-Inf` and `NaN` for the special
/// values.
#[verifier::external_body]
pub fn num_to_text(bits: u64) -> (r: String)
    ensures
        r@ == number_text(bits),
{
    format!("{}", Double::from_bits(bits as u128))
}

/// A run of one or more decimal digits.
pub open spec fn is_digit_seq(s: Seq<char>) -> bool {
    s.len() > 0 && forall|i: int| 0 <= i < s.len() ==> '0' <= #[trigger] s[i] <= '9'
}

/// The shape of a numeric literal: digits, optionally followed by a
/// decimal point and more digits.
pub open spec fn is_number_lexeme(s: Seq<char>) -> bool {
    ||| is_digit_seq(s)
    ||| exists|k: int|
        0 < k < s.len() && s[k] == '.' && is_digit_seq(#[trigger] s.subrange(0, k)) && is_digit_seq(
            s.subrange(k + 1, s.len() as int),
        )
}

} // verus!
