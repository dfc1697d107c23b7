//! Runtime numbers.
//!
//! The language's numbers are IEEE-754 double-precision values, carried
//! everywhere as their 64-bit encodings.  Equality, ordering and negation
//! are bit-level operations with exact specifications here; rounding
//! arithmetic, decimal parsing and decimal formatting are delegated to the
//! `rustc_apfloat` soft-float library behind trusted wrappers, and their
//! results are referred to through uninterpreted names.

use vstd::prelude::*;

use rustc_apfloat::Float;

verus! {

/// Mask of the sign bit of a 64-bit encoding.
pub const SIGN_MASK: u64 = 0x8000_0000_0000_0000;

/// Mask of the exponent and significand (everything but the sign).
pub const MAGNITUDE_MASK: u64 = 0x7FFF_FFFF_FFFF_FFFF;

/// Smallest magnitude that denotes an infinity or NaN: exponent all ones,
/// significand zero.
pub const INFINITY_MAGNITUDE: u64 = 0x7FF0_0000_0000_0000;

/// The sign bit of an encoding, as a boolean.
pub open spec fn spec_sign(bits: u64) -> bool {
    bits & SIGN_MASK == SIGN_MASK
}

/// The magnitude (absolute-value encoding) of an encoding.
pub open spec fn spec_magnitude(bits: u64) -> u64 {
    bits & MAGNITUDE_MASK
}

/// Whether the encoding denotes a NaN: exponent all ones with a non-zero
/// significand.
pub open spec fn spec_is_nan(bits: u64) -> bool {
    spec_magnitude(bits) > INFINITY_MAGNITUDE
}

/// IEEE-754 equality on encodings: NaN is equal to nothing, the two zeros
/// are equal to each other, and otherwise equal encodings are equal values.
pub open spec fn spec_num_eq(a: u64, b: u64) -> bool {
    &&& !spec_is_nan(a)
    &&& !spec_is_nan(b)
    &&& (a == b || (spec_magnitude(a) == 0 && spec_magnitude(b) == 0))
}

/// IEEE-754 less-than on encodings.  For non-NaN values the encodings order
/// as sign-magnitude integers, with the two zeros equal.
pub open spec fn spec_num_lt(a: u64, b: u64) -> bool {
    &&& !spec_is_nan(a)
    &&& !spec_is_nan(b)
    &&& if spec_sign(a) != spec_sign(b) {
            // a negative, b non-negative, and not both zeros
            spec_sign(a) && !(spec_magnitude(a) == 0 && spec_magnitude(b) == 0)
        } else if !spec_sign(a) {
            spec_magnitude(a) < spec_magnitude(b)
        } else {
            spec_magnitude(b) < spec_magnitude(a)
        }
}

/// IEEE-754 less-or-equal on encodings.
pub open spec fn spec_num_le(a: u64, b: u64) -> bool {
    spec_num_lt(a, b) || spec_num_eq(a, b)
}

/// IEEE-754 negation flips the sign bit and nothing else.
pub open spec fn spec_num_neg(bits: u64) -> u64 {
    bits ^ SIGN_MASK
}

/// The IEEE-754 sum of two encodings, rounding to nearest-even.
pub uninterp spec fn num_add(a: u64, b: u64) -> u64;

/// The IEEE-754 difference of two encodings, rounding to nearest-even.
pub uninterp spec fn num_sub(a: u64, b: u64) -> u64;

/// The IEEE-754 product of two encodings, rounding to nearest-even.
pub uninterp spec fn num_mul(a: u64, b: u64) -> u64;

/// The IEEE-754 quotient of two encodings, rounding to nearest-even.
pub uninterp spec fn num_div(a: u64, b: u64) -> u64;

/// The IEEE-754 remainder of two encodings, with the truncating (fmod)
/// convention.
pub uninterp spec fn num_rem(a: u64, b: u64) -> u64;

/// The encoding denoted by a decimal literal (as bytes), rounding to
/// nearest-even, or None where the bytes are not a decimal literal.
pub uninterp spec fn num_parse(s: Seq<u8>) -> Option<u64>;

/// The decimal rendering of an encoding at a given number of significant
/// digits (as bytes).
pub uninterp spec fn num_format(bits: u64, digits: u64) -> Seq<u8>;

/// The encoding of the double nearest an unsigned integer, rounding to
/// nearest-even.
pub uninterp spec fn num_from_u64(n: u64) -> u64;

/// Relies on rustc_apfloat: `Double` addition rounds to nearest-even as
/// IEEE-754 double addition does.
#[verifier::external_body]
pub fn fl_add(a: u64, b: u64) -> (r: u64)
    ensures
        r == num_add(a, b),
{
    let x = rustc_apfloat::ieee::Double::from_bits(a as u128);
    let y = rustc_apfloat::ieee::Double::from_bits(b as u128);
    (x + y).value.to_bits() as u64
}

/// Relies on rustc_apfloat: `Double` subtraction rounds to nearest-even as
/// IEEE-754 double subtraction does.
#[verifier::external_body]
pub fn fl_sub(a: u64, b: u64) -> (r: u64)
    ensures
        r == num_sub(a, b),
{
    let x = rustc_apfloat::ieee::Double::from_bits(a as u128);
    let y = rustc_apfloat::ieee::Double::from_bits(b as u128);
    (x - y).value.to_bits() as u64
}

/// Relies on rustc_apfloat: `Double` multiplication rounds to nearest-even
/// as IEEE-754 double multiplication does.
#[verifier::external_body]
pub fn fl_mul(a: u64, b: u64) -> (r: u64)
    ensures
        r == num_mul(a, b),
{
    let x = rustc_apfloat::ieee::Double::from_bits(a as u128);
    let y = rustc_apfloat::ieee::Double::from_bits(b as u128);
    (x * y).value.to_bits() as u64
}

/// Relies on rustc_apfloat: `Double` division rounds to nearest-even as
/// IEEE-754 double division does; division by zero gives an infinity or NaN.
#[verifier::external_body]
pub fn fl_div(a: u64, b: u64) -> (r: u64)
    ensures
        r == num_div(a, b),
{
    let x = rustc_apfloat::ieee::Double::from_bits(a as u128);
    let y = rustc_apfloat::ieee::Double::from_bits(b as u128);
    (x / y).value.to_bits() as u64
}

/// Relies on rustc_apfloat: `Double`'s `%` is `c_fmod`, the truncating
/// remainder that `%` on doubles computes.
#[verifier::external_body]
pub fn fl_rem(a: u64, b: u64) -> (r: u64)
    ensures
        r == num_rem(a, b),
{
    let x = rustc_apfloat::ieee::Double::from_bits(a as u128);
    let y = rustc_apfloat::ieee::Double::from_bits(b as u128);
    (x % y).value.to_bits() as u64
}

/// Relies on rustc_apfloat: `Double::from_str` rounds a decimal literal to
/// the nearest double; it errors on bytes that are not a literal it knows.
#[verifier::external_body]
pub fn fl_parse(s: &Vec<u8>) -> (r: Option<u64>)
    ensures
        r == num_parse(s@),
{
    let text = match core::str::from_utf8(s.as_slice()) {
        Ok(t) => t,
        Err(_) => return None,
    };
    match text.parse::<rustc_apfloat::ieee::Double>() {
        Ok(d) => Some(d.to_bits() as u64),
        Err(_) => None,
    }
}

/// Relies on rustc_apfloat: `Double`'s `Display` renders the value in
/// decimal with the requested number of significant digits.  Full
/// precision for a double is 17 digits; the bound keeps the renderer far
/// from its own arithmetic limits.
#[verifier::external_body]
pub fn fl_format(bits: u64, digits: u64) -> (r: Vec<u8>)
    requires
        1 <= digits <= 17,
    ensures
        r@ == num_format(bits, digits),
{
    let d = rustc_apfloat::ieee::Double::from_bits(bits as u128);
    format!("{:.*}", digits as usize, d).into_bytes()
}

/// Relies on rustc_apfloat: `Double::from_u128` rounds an integer to the
/// nearest double as IEEE-754 conversion does.
#[verifier::external_body]
pub fn fl_from_u64(n: u64) -> (r: u64)
    ensures
        r == num_from_u64(n),
{
    rustc_apfloat::ieee::Double::from_u128(n as u128).value.to_bits() as u64
}

/// Whether rendering at a digit count parses back to the same encoding.
pub open spec fn round_trips(bits: u64, digits: u64) -> bool {
    num_parse(num_format(bits, digits)) == Some(bits)
}

/// Whether rendering at a digit count round-trips without scientific
/// notation (no `E` in the text).
pub open spec fn positional(bits: u64, digits: u64) -> bool {
    round_trips(bits, digits) && !crate::text::contains_byte(num_format(bits, digits), 69)
}

/// The fewest digits at or above `digits` whose rendering round-trips
/// positionally, up to full precision.
pub open spec fn pick_positional(bits: u64, digits: u64) -> Option<u64>
    decreases 18 - digits,
{
    if digits > 17 {
        Option::None
    } else if positional(bits, digits) {
        Option::Some(digits)
    } else {
        pick_positional(bits, (digits + 1) as u64)
    }
}

/// The fewest digits at or above `digits` whose rendering round-trips at
/// all, up to full precision.
pub open spec fn pick_round_trip(bits: u64, digits: u64) -> Option<u64>
    decreases 18 - digits,
{
    if digits > 17 {
        Option::None
    } else if round_trips(bits, digits) {
        Option::Some(digits)
    } else {
        pick_round_trip(bits, (digits + 1) as u64)
    }
}

/// The decimal rendering `print` uses for a number.  NaN and the two
/// infinities have their fixed spellings; a finite value is rendered with
/// the fewest significant digits that parse back to the same encoding,
/// preferring a form without scientific notation, at full precision where
/// no digit count round-trips.
pub open spec fn spec_num_repr(bits: u64) -> Seq<u8> {
    if spec_is_nan(bits) {
        crate::text::ascii_bytes("NaN"@)
    } else if spec_magnitude(bits) == INFINITY_MAGNITUDE {
        if spec_sign(bits) {
            crate::text::ascii_bytes("-inf"@)
        } else {
            crate::text::ascii_bytes("inf"@)
        }
    } else {
        match pick_positional(bits, 1) {
            Option::Some(d) => num_format(bits, d),
            Option::None => match pick_round_trip(bits, 1) {
                Option::Some(d) => num_format(bits, d),
                Option::None => num_format(bits, 17),
            },
        }
    }
}

/// Render an encoding as `spec_num_repr` says.
pub fn num_repr(bits: u64) -> (r: Vec<u8>)
    ensures
        r@ == spec_num_repr(bits),
{
    let magnitude = bits & MAGNITUDE_MASK;
    if magnitude > INFINITY_MAGNITUDE {
        proof {
            reveal_strlit("NaN");
            assert(vstd::utf8::is_ascii_chars("NaN"@));
        }
        return crate::text::lit("NaN");
    }
    if magnitude == INFINITY_MAGNITUDE {
        if bits & SIGN_MASK == SIGN_MASK {
            proof {
                reveal_strlit("-inf");
                assert(vstd::utf8::is_ascii_chars("-inf"@));
            }
            return crate::text::lit("-inf");
        } else {
            proof {
                reveal_strlit("inf");
                assert(vstd::utf8::is_ascii_chars("inf"@));
            }
            return crate::text::lit("inf");
        }
    }
    let mut digits: u64 = 1;
    while digits <= 17
        invariant
            1 <= digits <= 18,
            bits & MAGNITUDE_MASK < INFINITY_MAGNITUDE,
            pick_positional(bits, 1) == pick_positional(bits, digits),
        decreases 18 - digits,
    {
        let rendered = fl_format(bits, digits);
        if !crate::text::has_byte(&rendered, 69) {
            match fl_parse(&rendered) {
                Option::Some(b) => {
                    if b == bits {
                        return rendered;
                    }
                }
                Option::None => {}
            }
        }
        digits = digits + 1;
    }
    let mut digits2: u64 = 1;
    while digits2 <= 17
        invariant
            1 <= digits2 <= 18,
            bits & MAGNITUDE_MASK < INFINITY_MAGNITUDE,
            pick_positional(bits, 1) == Option::<u64>::None,
            pick_round_trip(bits, 1) == pick_round_trip(bits, digits2),
        decreases 18 - digits2,
    {
        let rendered = fl_format(bits, digits2);
        match fl_parse(&rendered) {
            Option::Some(b) => {
                if b == bits {
                    return rendered;
                }
            }
            Option::None => {}
        }
        digits2 = digits2 + 1;
    }
    fl_format(bits, 17)
}

/// IEEE-754 equality of two encodings.
pub fn number_eq(a: u64, b: u64) -> (r: bool)
    ensures
        r == spec_num_eq(a, b),
{
    let ma = a & MAGNITUDE_MASK;
    let mb = b & MAGNITUDE_MASK;
    if ma > INFINITY_MAGNITUDE || mb > INFINITY_MAGNITUDE {
        false
    } else {
        a == b || (ma == 0 && mb == 0)
    }
}

/// IEEE-754 less-than of two encodings.
pub fn number_lt(a: u64, b: u64) -> (r: bool)
    ensures
        r == spec_num_lt(a, b),
{
    let ma = a & MAGNITUDE_MASK;
    let mb = b & MAGNITUDE_MASK;
    if ma > INFINITY_MAGNITUDE || mb > INFINITY_MAGNITUDE {
        false
    } else {
        let sa = a & SIGN_MASK == SIGN_MASK;
        let sb = b & SIGN_MASK == SIGN_MASK;
        if sa != sb {
            sa && !(ma == 0 && mb == 0)
        } else if !sa {
            ma < mb
        } else {
            mb < ma
        }
    }
}

/// IEEE-754 less-or-equal of two encodings.
pub fn number_le(a: u64, b: u64) -> (r: bool)
    ensures
        r == spec_num_le(a, b),
{
    number_lt(a, b) || number_eq(a, b)
}

/// IEEE-754 negation of an encoding.
pub fn number_neg(bits: u64) -> (r: u64)
    ensures
        r == spec_num_neg(bits),
{
    bits ^ SIGN_MASK
}

} // verus!
