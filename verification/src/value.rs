use rustc_apfloat::ieee::Double;
use rustc_apfloat::Float;
use vstd::prelude::*;

verus! {

// A runtime number of the language is a 64-bit IEEE 754 binary64 value,
// carried everywhere as its bit pattern (a `u64`).  The arithmetic on such
// values is done by the `rustc_apfloat` crate, which implements the IEEE 754
// required operations with correct rounding (round-to-nearest, ties to even),
// exactly as host floating-point hardware does.  What each operation returns
// is a pure function of the argument bit patterns, so each gets a name below.
/// Bit pattern of the IEEE 754 binary64 sum of two values given as bit patterns.
pub uninterp spec fn add_bits(a: u64, b: u64) -> u64;

/// Bit pattern of the IEEE 754 binary64 difference of two values given as bit patterns.
pub uninterp spec fn sub_bits(a: u64, b: u64) -> u64;

/// Bit pattern of the IEEE 754 binary64 product of two values given as bit patterns.
pub uninterp spec fn mul_bits(a: u64, b: u64) -> u64;

/// Bit pattern of the IEEE 754 binary64 quotient of two values given as bit patterns.
pub uninterp spec fn div_bits(a: u64, b: u64) -> u64;

/// Bit pattern of the binary64 value nearest to a given signed 64-bit integer.
pub uninterp spec fn int_bits(i: i64) -> u64;

/// Bit pattern of the binary64 value that a decimal numeral denotes, or zero
/// bits when the text is not a valid numeral.
pub uninterp spec fn real_bits_of(s: Seq<char>) -> u64;

/// A binary64 bit pattern represents the value zero exactly when everything
/// but the sign bit is clear: the two zero encodings of IEEE 754 are +0.0
/// (all bits clear) and -0.0 (only the sign bit set).
pub open spec fn is_zero_bits(b: u64) -> bool {
    b & 0x7fff_ffff_ffff_ffff == 0
}

/// A binary64 bit pattern is a NaN exactly when the eleven exponent bits are
/// all set and the 52 significand bits are not all clear (all-set exponent
/// with a clear significand encodes an infinity).
pub open spec fn is_nan_bits(b: u64) -> bool {
    (b >> 52) & 0x7ff == 0x7ff && b & 0x000f_ffff_ffff_ffff != 0
}

/// Relies on rustc_apfloat's `Add` for `ieee::Double`: the correctly rounded
/// (round-to-nearest-even) binary64 sum, as IEEE 754 requires of `+`.
#[verifier::external_body]
pub(crate) fn real_add(a: u64, b: u64) -> (r: u64)
    ensures
        r == add_bits(a, b),
{
    (Double::from_bits(a as u128) + Double::from_bits(b as u128)).value.to_bits() as u64
}

/// Relies on rustc_apfloat's `Sub` for `ieee::Double`: the correctly rounded
/// binary64 difference, as IEEE 754 requires of `-`.
#[verifier::external_body]
pub(crate) fn real_sub(a: u64, b: u64) -> (r: u64)
    ensures
        r == sub_bits(a, b),
{
    (Double::from_bits(a as u128) - Double::from_bits(b as u128)).value.to_bits() as u64
}

/// Relies on rustc_apfloat's `Mul` for `ieee::Double`: the correctly rounded
/// binary64 product, as IEEE 754 requires of `*`.
#[verifier::external_body]
pub(crate) fn real_mul(a: u64, b: u64) -> (r: u64)
    ensures
        r == mul_bits(a, b),
{
    (Double::from_bits(a as u128) * Double::from_bits(b as u128)).value.to_bits() as u64
}

/// Relies on rustc_apfloat's `Div` for `ieee::Double`: the correctly rounded
/// binary64 quotient, as IEEE 754 requires of `/`.
#[verifier::external_body]
pub(crate) fn real_div(a: u64, b: u64) -> (r: u64)
    ensures
        r == div_bits(a, b),
{
    (Double::from_bits(a as u128) / Double::from_bits(b as u128)).value.to_bits() as u64
}

/// Relies on rustc_apfloat's `Float::from_i128` for `ieee::Double`: the
/// binary64 value nearest to the given integer (round-to-nearest-even),
/// which is how an `i64` converts to a binary64 value.
#[verifier::external_body]
pub(crate) fn int_to_bits(i: i64) -> (r: u64)
    ensures
        r == int_bits(i),
{
    Double::from_i128(i as i128).value.to_bits() as u64
}

/// Relies on rustc_apfloat's `FromStr` for `ieee::Double`: the correctly
/// rounded binary64 value of a decimal numeral, rejecting (among others)
/// text with more than one dot or with a character that is no ASCII digit,
/// exactly as `from_decimal_string` documents; a rejected numeral falls back
/// to the all-clear bit pattern, which encodes 0.0.
#[verifier::external_body]
pub(crate) fn parse_real_bits(s: &str) -> (r: u64)
    ensures
        r == real_bits_of(s@),
{
    match s.parse::<Double>() {
        Ok(d) => d.to_bits() as u64,
        Err(_) => 0,
    }
}

/// Whether a bit pattern encodes the value zero (either sign).
pub fn bits_is_zero(b: u64) -> (r: bool)
    ensures
        r == is_zero_bits(b),
{
    b & 0x7fff_ffff_ffff_ffff == 0
}

/// Whether a bit pattern encodes a NaN.
pub fn bits_is_nan(b: u64) -> (r: bool)
    ensures
        r == is_nan_bits(b),
{
    (b >> 52) & 0x7ff == 0x7ff && b & 0x000f_ffff_ffff_ffff != 0
}

} // verus!
