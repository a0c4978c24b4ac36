//! Binary32 values handled through their 32-bit patterns.
//!
//! A pattern is one sign bit, eight bits of biased exponent and twenty-three
//! bits of fraction. Everything here is integer work on that layout: the
//! numeric order, the choice of the lesser or greater of two values, sign
//! changes, and scaling by a power of two through the exponent field.

use vstd::prelude::*;

verus! {

/// The sign bit of a pattern.
pub const SIGN_BIT: u32 = 0x8000_0000;

/// The pattern of positive infinity: every magnitude above it is a NaN.
pub const INFINITY_BITS: u32 = 0x7f80_0000;

/// The weight of the lowest bit of the exponent field.
pub const EXPONENT_UNIT: u32 = 0x0080_0000;

/// The pattern of positive zero.
pub const ZERO_BITS: u32 = 0;

/// The pattern without its sign bit.
pub open spec fn magnitude(b: u32) -> int {
    if b >= SIGN_BIT {
        b - SIGN_BIT
    } else {
        b as int
    }
}

/// Whether the sign bit is set.
pub open spec fn negative(b: u32) -> bool {
    b >= SIGN_BIT
}

/// Whether the pattern encodes a NaN.
pub open spec fn not_a_number(b: u32) -> bool {
    magnitude(b) > INFINITY_BITS
}

/// The biased exponent, bits 23 to 30 of the pattern.
pub open spec fn exponent_field(b: u32) -> int {
    magnitude(b) / (EXPONENT_UNIT as int)
}

/// The fraction, bits 0 to 22 of the pattern.
pub open spec fn fraction(b: u32) -> int {
    magnitude(b) % (EXPONENT_UNIT as int)
}

/// Whether the pattern encodes a normal number: neither zero, subnormal,
/// infinite nor NaN.
pub open spec fn normal(b: u32) -> bool {
    1 <= exponent_field(b) <= 254
}

/// An integer that orders the patterns as their values are ordered.
///
/// The layout makes the magnitude grow with the absolute value, so the signed
/// magnitude orders all values that are not NaN; both zeros get 0.
pub open spec fn key(b: u32) -> int {
    if negative(b) {
        -magnitude(b)
    } else {
        magnitude(b)
    }
}

/// `a <= b` as numbers: false as soon as one of them is a NaN.
pub open spec fn at_most(a: u32, b: u32) -> bool {
    !not_a_number(a) && !not_a_number(b) && key(a) <= key(b)
}

/// `a < b` as numbers: false as soon as one of them is a NaN.
pub open spec fn below(a: u32, b: u32) -> bool {
    !not_a_number(a) && !not_a_number(b) && key(a) < key(b)
}

/// `a == b` as numbers: the zeros are equal, a NaN equals nothing.
pub open spec fn equal(a: u32, b: u32) -> bool {
    !not_a_number(a) && !not_a_number(b) && key(a) == key(b)
}

/// The lesser of two values; a NaN gives way to the other argument.
pub open spec fn lesser(a: u32, b: u32) -> u32 {
    if not_a_number(a) {
        b
    } else if not_a_number(b) {
        a
    } else if key(a) <= key(b) {
        a
    } else {
        b
    }
}

/// The greater of two values; a NaN gives way to the other argument.
pub open spec fn greater(a: u32, b: u32) -> u32 {
    if not_a_number(a) {
        b
    } else if not_a_number(b) {
        a
    } else if key(a) >= key(b) {
        a
    } else {
        b
    }
}

/// The pattern with its sign bit cleared.
pub open spec fn cleared_sign(b: u32) -> u32 {
    magnitude(b) as u32
}

/// The pattern with its sign bit flipped.
pub open spec fn flipped_sign(b: u32) -> u32 {
    if b >= SIGN_BIT {
        (b - SIGN_BIT) as u32
    } else {
        (b + SIGN_BIT) as u32
    }
}

/// Whether adding `exp` to the exponent field keeps it within its eight bits.
pub open spec fn scalable(b: u32, exp: i32) -> bool {
    if exp > 0 {
        exp <= 255 && exponent_field(b) + exp <= 255
    } else {
        exponent_field(b) + exp >= 0
    }
}

/// The pattern after `exp` was added at the position of the exponent field,
/// in 32-bit wrapping arithmetic: only the low nine bits of `exp` reach the
/// pattern, and a carry out of the sign bit is dropped.
pub open spec fn scaled(b: u32, exp: i32) -> u32 {
    ((b + (exp % 512) * EXPONENT_UNIT) % 0x1_0000_0000) as u32
}

/// Tells whether the pattern encodes a NaN.
pub fn is_nan(b: u32) -> (r: bool)
    ensures
        r == not_a_number(b),
{
    if b >= SIGN_BIT {
        b - SIGN_BIT > INFINITY_BITS
    } else {
        b > INFINITY_BITS
    }
}

/// Computes the ordering key of a pattern.
pub fn order_key(b: u32) -> (k: i64)
    ensures
        k == key(b),
{
    if b >= SIGN_BIT {
        let m: u32 = b - SIGN_BIT;
        -(m as i64)
    } else {
        b as i64
    }
}

/// Numeric `a <= b`.
pub fn le(a: u32, b: u32) -> (r: bool)
    ensures
        r == at_most(a, b),
{
    !is_nan(a) && !is_nan(b) && order_key(a) <= order_key(b)
}

/// Numeric `a < b`.
pub fn lt(a: u32, b: u32) -> (r: bool)
    ensures
        r == below(a, b),
{
    !is_nan(a) && !is_nan(b) && order_key(a) < order_key(b)
}

/// Numeric `a == b`.
pub fn same(a: u32, b: u32) -> (r: bool)
    ensures
        r == equal(a, b),
{
    !is_nan(a) && !is_nan(b) && order_key(a) == order_key(b)
}

/// The lesser of two values, ignoring a NaN where the other is a number.
pub fn fmin(a: u32, b: u32) -> (r: u32)
    ensures
        r == lesser(a, b),
{
    if is_nan(a) {
        b
    } else if is_nan(b) {
        a
    } else if order_key(a) <= order_key(b) {
        a
    } else {
        b
    }
}

/// The greater of two values, ignoring a NaN where the other is a number.
pub fn fmax(a: u32, b: u32) -> (r: u32)
    ensures
        r == greater(a, b),
{
    if is_nan(a) {
        b
    } else if is_nan(b) {
        a
    } else if order_key(a) >= order_key(b) {
        a
    } else {
        b
    }
}

/// The absolute value: the sign bit is cleared.
pub fn fabs(b: u32) -> (r: u32)
    ensures
        r == cleared_sign(b),
{
    if b >= SIGN_BIT {
        b - SIGN_BIT
    } else {
        b
    }
}

/// The negation: the sign bit is flipped.
pub fn fneg(b: u32) -> (r: u32)
    ensures
        r == flipped_sign(b),
{
    if b >= SIGN_BIT {
        b - SIGN_BIT
    } else {
        b + SIGN_BIT
    }
}

/// Reads the biased exponent of a pattern.
pub fn exponent(b: u32) -> (e: u32)
    ensures
        e == exponent_field(b),
        e <= 255,
{
    fabs(b) / EXPONENT_UNIT
}

/// Tells whether a multiplication by `2^exp` can be done on the exponent
/// field alone, without leaving its eight bits.
pub fn verify_ldexp(b: u32, exp: i32) -> (r: bool)
    ensures
        r == scalable(b, exp),
{
    let e: i64 = exponent(b) as i64;
    let shift: i64 = exp as i64;
    if exp > 0 {
        exp <= 255 && e + shift <= 255
    } else {
        e + shift >= 0
    }
}

/// The low nine bits of `exp`, taken as a two's complement number.
fn low_nine_bits(exp: i32) -> (m: u64)
    ensures
        m == exp % 512,
        m < 512,
{
    if exp >= 0 {
        (exp as u64) % 512
    } else {
        let n: i64 = -(exp as i64);
        let rem: u64 = (n as u64) % 512;
        if rem == 0 {
            0
        } else {
            512 - rem
        }
    }
}

/// Adds `exp` at the position of the exponent field, wrapping at 32 bits.
pub fn ldexp(b: u32, exp: i32) -> (r: u32)
    ensures
        r == scaled(b, exp),
{
    let step: u64 = low_nine_bits(exp);
    assert(step * 0x80_0000 <= 511 * 0x80_0000) by (nonlinear_arith)
        requires
            step < 512,
    ;
    let sum: u64 = b as u64 + step * 0x80_0000;
    if sum >= 0x1_0000_0000 {
        (sum - 0x1_0000_0000) as u32
    } else {
        sum as u32
    }
}

/// The fields and sign changes that are given above by arithmetic are the
/// bit fields of the pattern and the usual operations on its sign bit.
pub proof fn lemma_fields_are_bits(b: u32)
    ensures
        magnitude(b) == b & 0x7fff_ffff,
        negative(b) == (b >> 31 == 1),
        exponent_field(b) == (b >> 23) & 0xff,
        fraction(b) == b & 0x7f_ffff,
        cleared_sign(b) == b & 0x7fff_ffff,
        flipped_sign(b) == b ^ 0x8000_0000,
{
    assert(b & 0x7fff_ffff == if b >= 0x8000_0000 {
        (b - 0x8000_0000) as u32
    } else {
        b
    }) by (bit_vector);
    assert((b >> 31 == 1) == (b >= 0x8000_0000)) by (bit_vector);
    assert((b >> 23) & 0xff == (b & 0x7fff_ffff) / 0x80_0000) by (bit_vector);
    assert(b & 0x7f_ffff == (b & 0x7fff_ffff) % 0x80_0000) by (bit_vector);
    assert(b ^ 0x8000_0000 == if b >= 0x8000_0000 {
        (b - 0x8000_0000) as u32
    } else {
        (b + 0x8000_0000) as u32
    }) by (bit_vector);
}

/// Scaling is the wrapping sum of the pattern and of `exp` shifted to the
/// exponent field, where `word` holds the 32 bits of the two's complement
/// of `exp`.
pub proof fn lemma_scaled_is_shifted_sum(b: u32, exp: i32, word: u32)
    requires
        word == (if exp >= 0 {
            exp as int
        } else {
            exp + 0x1_0000_0000
        }),
    ensures
        scaled(b, exp) == b.wrapping_add(word << 23),
{
    assert(word % 512 == exp % 512);
    let low = (word % 512) as u32;
    assert(word << 23 == ((word % 512) * 0x80_0000) as u32) by (bit_vector);
    assert(low * 0x80_0000 <= 511 * 0x80_0000) by (nonlinear_arith)
        requires
            low < 512,
    ;
}

/// Where the exponent field has room for `exp`, scaling keeps the sign and
/// the fraction and moves the exponent field by exactly `exp`.
pub proof fn lemma_scaled_fields(b: u32, exp: i32)
    requires
        scalable(b, exp),
    ensures
        scaled(b, exp) == b + exp * EXPONENT_UNIT,
        negative(scaled(b, exp)) == negative(b),
        fraction(scaled(b, exp)) == fraction(b),
        exponent_field(scaled(b, exp)) == exponent_field(b) + exp,
        magnitude(scaled(b, exp)) == magnitude(b) + exp * EXPONENT_UNIT,
{
    let m = magnitude(b);
    let e = exponent_field(b);
    let f = fraction(b);
    assert(m == e * 0x80_0000 + f);
    assert(0 <= e <= 255);
    let t = b + exp * 0x80_0000;
    assert(0 <= t < 0x1_0000_0000);
    if exp >= 0 {
        assert(exp % 512 == exp);
    } else {
        assert(exp % 512 == exp + 512);
    }
    assert(scaled(b, exp) == t);
    let m2 = magnitude(scaled(b, exp));
    assert(m2 == (e + exp) * 0x80_0000 + f);
}

} // verus!
