//! The numbers that the patterns stand for.
//!
//! A finite binary32 number is an integer multiple of `2^-149`. Its value is
//! given here in that unit, as an integer, and the two things that the rest
//! of the library does on bare patterns are held against it: ordering by the
//! signed magnitude, and scaling by a power of two through the exponent
//! field.

use crate::binary32::{
    cleared_sign, exponent_field, flipped_sign, fraction, key, lemma_scaled_fields, magnitude, negative, normal, scalable,
    scaled, EXPONENT_UNIT,
};
use vstd::arithmetic::power2::{
    lemma2_to64, lemma_pow2_adds, lemma_pow2_pos, lemma_pow2_strictly_increases,
    lemma_pow2_unfold, pow2,
};
use vstd::prelude::*;

verus! {

/// Whether the pattern encodes a finite number.
pub open spec fn finite(b: u32) -> bool {
    exponent_field(b) <= 254
}

/// The significand as an integer: the fraction, and above it the hidden bit
/// of every number that is not zero or subnormal.
pub open spec fn significand(b: u32) -> int {
    if exponent_field(b) == 0 {
        fraction(b)
    } else {
        EXPONENT_UNIT + fraction(b)
    }
}

/// The power of two by which the significand counts units of `2^-149`.
pub open spec fn binade(b: u32) -> nat {
    if exponent_field(b) == 0 {
        0
    } else {
        (exponent_field(b) - 1) as nat
    }
}

/// The absolute value of a finite pattern, in units of `2^-149`.
pub open spec fn distance(b: u32) -> int {
    significand(b) * pow2(binade(b))
}

/// The value of a finite pattern, in units of `2^-149`.
pub open spec fn value(b: u32) -> int {
    if negative(b) {
        -distance(b)
    } else {
        distance(b)
    }
}

/// Among finite patterns a larger magnitude stands for a larger absolute
/// value.
pub proof fn lemma_distance_grows(a: u32, b: u32)
    requires
        finite(a),
        finite(b),
        magnitude(a) < magnitude(b),
    ensures
        0 <= distance(a) < distance(b),
{
    let ea = exponent_field(a);
    let eb = exponent_field(b);
    let sa = significand(a);
    let sb = significand(b);
    let pa = pow2(binade(a)) as int;
    let pb = pow2(binade(b)) as int;
    lemma_pow2_pos(binade(a));
    lemma_pow2_pos(binade(b));
    assert(magnitude(a) == ea * 0x80_0000 + fraction(a));
    assert(magnitude(b) == eb * 0x80_0000 + fraction(b));
    assert(ea <= eb);
    assert(0 <= sa * pa) by (nonlinear_arith)
        requires
            0 <= sa,
            0 < pa,
    ;
    if ea == eb {
        assert(sa * pa < sb * pa) by (nonlinear_arith)
            requires
                sa < sb,
                0 < pa,
        ;
    } else {
        // The whole binade of `a` lies below the first number of the next.
        lemma2_to64();
        let next: int = if ea == 0 {
            1
        } else {
            2 * pa
        };
        assert(sa * pa < 0x80_0000 * next) by (nonlinear_arith)
            requires
                0 <= sa,
                0 < pa,
                ea == 0 ==> pa == 1 && sa < 0x80_0000 && next == 1,
                ea != 0 ==> sa < 0x100_0000 && next == 2 * pa,
        ;
        assert(next <= pb) by {
            if ea == 0 {
            } else {
                lemma_pow2_unfold(binade(a) + 1);
                if binade(a) + 1 < binade(b) {
                    lemma_pow2_strictly_increases(binade(a) + 1, binade(b));
                }
            }
        }
        assert(0x80_0000 * next <= sb * pb) by (nonlinear_arith)
            requires
                0 < next <= pb,
                0x80_0000 <= sb,
        ;
    }
}

/// The signed magnitude orders the finite patterns exactly as their values
/// are ordered.
pub proof fn lemma_key_orders_values(a: u32, b: u32)
    requires
        finite(a),
        finite(b),
    ensures
        key(a) <= key(b) <==> value(a) <= value(b),
        key(a) == key(b) <==> value(a) == value(b),
{
    lemma_pow2_pos(binade(a));
    lemma_pow2_pos(binade(b));
    if magnitude(a) < magnitude(b) {
        lemma_distance_grows(a, b);
    } else if magnitude(b) < magnitude(a) {
        lemma_distance_grows(b, a);
    } else {
        assert(distance(a) == distance(b));
    }
    lemma_zero_distance(a);
    lemma_zero_distance(b);
}

/// Only the two zeros are at distance zero.
pub proof fn lemma_zero_distance(a: u32)
    requires
        finite(a),
    ensures
        distance(a) >= 0,
        distance(a) == 0 <==> magnitude(a) == 0,
{
    let s = significand(a);
    let p = pow2(binade(a)) as int;
    lemma_pow2_pos(binade(a));
    assert(magnitude(a) == exponent_field(a) * 0x80_0000 + fraction(a));
    assert(s * p >= 0 && (s * p == 0 <==> s == 0)) by (nonlinear_arith)
        requires
            0 <= s,
            0 < p,
    ;
}

/// Clearing the sign bit gives the absolute value, and flipping it gives the
/// negated value.
pub proof fn lemma_sign_changes(b: u32)
    requires
        finite(b),
    ensures
        finite(cleared_sign(b)),
        finite(flipped_sign(b)),
        value(cleared_sign(b)) == distance(b),
        value(cleared_sign(b)) == (if value(b) < 0 {
            -value(b)
        } else {
            value(b)
        }),
        value(flipped_sign(b)) == -value(b),
{
    lemma_zero_distance(b);
    assert(magnitude(cleared_sign(b)) == magnitude(b));
    assert(magnitude(flipped_sign(b)) == magnitude(b));
}

/// Scaling through the exponent field multiplies exactly by the power of
/// two: where a normal number stays normal, the pattern that comes out
/// stands for the value times `2^exp`.
pub proof fn lemma_scaled_value(b: u32, exp: i32)
    requires
        scalable(b, exp),
        normal(b),
        normal(scaled(b, exp)),
    ensures
        exp >= 0 ==> value(scaled(b, exp)) == value(b) * pow2(exp as nat),
        exp <= 0 ==> value(scaled(b, exp)) * pow2((-exp) as nat) == value(b),
{
    lemma_scaled_fields(b, exp);
    let r = scaled(b, exp);
    let s = significand(b);
    assert(significand(r) == s);
    let wb = binade(b);
    let wr = binade(r);
    assert(wr == wb + exp);
    let pb = pow2(wb) as int;
    let pr = pow2(wr) as int;
    if exp >= 0 {
        let q = pow2(exp as nat) as int;
        lemma_pow2_adds(wb, exp as nat);
        assert(pr == pb * q);
        assert(s * pr == (s * pb) * q) by (nonlinear_arith)
            requires
                pr == pb * q,
        ;
        assert((-(s * pb)) * q == -((s * pb) * q)) by (nonlinear_arith);
    } else {
        let q = pow2((-exp) as nat) as int;
        lemma_pow2_adds(wr, (-exp) as nat);
        assert(pb == pr * q);
        assert(s * pb == (s * pr) * q) by (nonlinear_arith)
            requires
                pb == pr * q,
        ;
        assert((-(s * pr)) * q == -((s * pr) * q)) by (nonlinear_arith);
    }
}

} // verus!
