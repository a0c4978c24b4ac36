//! What holds of the interval operations taken together.

use crate::binary32::{
    at_most, below, cleared_sign, flipped_sign, greater, lemma_scaled_fields, lesser, normal,
    not_a_number, scalable, scaled, SIGN_BIT, ZERO_BITS,
};
use crate::interval::RealInterval;
use crate::rounding::{lemma_round_keeps_order, rounds_to};
use crate::value::{finite, lemma_key_orders_values, value};
use vstd::prelude::*;

verus! {

/// A valid interval overlaps itself in exactly itself.
pub proof fn lemma_intersect_self(a: RealInterval)
    requires
        a.wf(),
    ensures
        a.overlap(a) == Some(a),
{
}

/// The hull of an interval with itself is that interval.
pub proof fn lemma_union_self(a: RealInterval)
    ensures
        a.hull(a) == a,
{
}

/// The overlap of two valid intervals does not depend on their order: both
/// orders give nothing, or both give numerically equal intervals.
pub proof fn lemma_intersect_commutes(a: RealInterval, b: RealInterval)
    requires
        a.wf(),
        b.wf(),
    ensures
        a.overlap(b).is_some() == b.overlap(a).is_some(),
        a.overlap(b).is_some() ==> a.overlap(b).unwrap().same_as(b.overlap(a).unwrap()),
{
}

/// The hull of two valid intervals does not depend on their order: both
/// orders give numerically equal intervals.
pub proof fn lemma_union_commutes(a: RealInterval, b: RealInterval)
    requires
        a.wf(),
        b.wf(),
    ensures
        a.hull(b).same_as(b.hull(a)),
{
}

/// The overlap of two intervals holds exactly the values that both hold; so
/// it exists as soon as they have one value in common.
pub proof fn lemma_intersect_holds_common(a: RealInterval, b: RealInterval, v: u32)
    requires
        a.wf(),
        b.wf(),
    ensures
        a.holds(v) && b.holds(v) ==> a.overlap(b).is_some(),
        a.overlap(b).is_some() ==> (a.overlap(b).unwrap().holds(v) <==> a.holds(v) && b.holds(v)),
{
}

/// The hull of two valid intervals holds every value that one of them holds.
pub proof fn lemma_union_encloses(a: RealInterval, b: RealInterval, v: u32)
    requires
        a.wf(),
        b.wf(),
        a.holds(v) || b.holds(v),
    ensures
        a.hull(b).holds(v),
{
}

/// The absolute value of an interval holds the absolute value of every value
/// that the interval holds.
pub proof fn lemma_abs_encloses(a: RealInterval, v: u32)
    requires
        a.holds(v),
    ensures
        a.magnitudes().holds(cleared_sign(v)),
{
}

/// The negation of an interval holds exactly the negations of the values
/// that the interval holds.
pub proof fn lemma_negate_encloses(a: RealInterval, v: u32)
    ensures
        a.mirrored().holds(flipped_sign(v)) <==> a.holds(v),
{
}

/// Negating twice gives the interval back, bit for bit.
pub proof fn lemma_negate_twice(a: RealInterval)
    ensures
        a.mirrored().mirrored() == a,
{
}

/// The bound-wise minimum and maximum of two values that two intervals hold
/// lie in the bound-wise minimum and maximum of the intervals.
pub proof fn lemma_min_max_enclose(a: RealInterval, b: RealInterval, v: u32, w: u32)
    requires
        a.holds(v),
        b.holds(w),
    ensures
        a.lesser_bounds(b).holds(lesser(v, w)),
        a.greater_bounds(b).holds(greater(v, w)),
{
}

/// The rounded interval holds the rounded value of every value that the
/// interval holds.
pub proof fn lemma_round_encloses(a: RealInterval, r: RealInterval, v: u32, rv: u32)
    requires
        a.holds(v),
        rounds_to(a.min, r.min),
        rounds_to(a.max, r.max),
        rounds_to(v, rv),
    ensures
        r.holds(rv),
{
    lemma_round_keeps_order(a.min, v, r.min, rv);
    lemma_round_keeps_order(v, a.max, rv, r.max);
}

/// An interval of finite bounds holds a finite value exactly when the value
/// lies between the values of the bounds.
pub proof fn lemma_holds_by_value(a: RealInterval, v: u32)
    requires
        finite(a.min),
        finite(a.max),
        finite(v),
    ensures
        a.holds(v) <==> value(a.min) <= value(v) <= value(a.max),
        a.wf() <==> value(a.min) <= value(a.max),
{
    lemma_key_orders_values(a.min, v);
    lemma_key_orders_values(v, a.max);
    lemma_key_orders_values(a.min, a.max);
}

/// A single point is held by its own interval, unless it is a NaN.
pub proof fn lemma_point_holds(v: u32)
    requires
        !not_a_number(v),
    ensures
        (RealInterval { min: v, max: v }).wf(),
        (RealInterval { min: v, max: v }).holds(v),
{
}

/// Scaling by a power of two keeps the order of two values, where both
/// exponent fields have room for it and neither result is a NaN. One pair is
/// left out: a positive zero before a negative one, which the exponent field
/// moves apart in the wrong direction.
pub proof fn lemma_scaled_keeps_order(a: u32, b: u32, exp: i32)
    requires
        at_most(a, b),
        scalable(a, exp),
        scalable(b, exp),
        !not_a_number(scaled(a, exp)),
        !not_a_number(scaled(b, exp)),
        exp == 0 || !(a == ZERO_BITS && b == SIGN_BIT),
    ensures
        at_most(scaled(a, exp), scaled(b, exp)),
{
    lemma_scaled_fields(a, exp);
    lemma_scaled_fields(b, exp);
}

/// Scaling a valid interval by a power of two gives a valid interval, where
/// the exponent fields of both bounds have room for it and neither result is
/// a NaN; but for the interval from positive to negative zero.
pub proof fn lemma_rescaled_wf(a: RealInterval, exp: i32)
    requires
        a.wf(),
        scalable(a.min, exp),
        scalable(a.max, exp),
        !not_a_number(scaled(a.min, exp)),
        !not_a_number(scaled(a.max, exp)),
        exp == 0 || !(a.min == ZERO_BITS && a.max == SIGN_BIT),
    ensures
        a.rescaled(exp).wf(),
{
    lemma_scaled_keeps_order(a.min, a.max, exp);
}

/// Scaling by a power of two keeps a value of the interval inside it, where
/// the bounds and the value are normal numbers and stay so.
pub proof fn lemma_rescaled_encloses(a: RealInterval, v: u32, exp: i32)
    requires
        a.holds(v),
        normal(a.min) && normal(a.max) && normal(v),
        normal(scaled(a.min, exp)) && normal(scaled(a.max, exp)) && normal(scaled(v, exp)),
        scalable(a.min, exp) && scalable(a.max, exp) && scalable(v, exp),
    ensures
        a.rescaled(exp).holds(scaled(v, exp)),
{
    lemma_scaled_keeps_order(a.min, v, exp);
    lemma_scaled_keeps_order(v, a.max, exp);
}

/// The multiples of an interval by a factor are in order as soon as the two
/// products are ordered as the sign of the factor demands.
pub proof fn lemma_multiple_wf(factor: u32, by_min: u32, by_max: u32)
    requires
        !not_a_number(factor),
        (if at_most(ZERO_BITS, factor) {
            at_most(by_min, by_max)
        } else {
            at_most(by_max, by_min)
        }),
    ensures
        RealInterval::multiple(factor, by_min, by_max).wf(),
        RealInterval::multiple(factor, by_min, by_max).holds(by_min),
        RealInterval::multiple(factor, by_min, by_max).holds(by_max),
{
}

/// The product of two intervals holds all four products of their bounds, as
/// soon as each pair of products is ordered as the sign of its factor
/// demands.
pub proof fn lemma_product_holds_corners(
    a: RealInterval,
    min_by_min: u32,
    min_by_max: u32,
    max_by_min: u32,
    max_by_max: u32,
)
    requires
        a.wf(),
        RealInterval::multiple(a.min, min_by_min, min_by_max).wf(),
        RealInterval::multiple(a.max, max_by_min, max_by_max).wf(),
    ensures
        ({
            let p = RealInterval::multiple(a.min, min_by_min, min_by_max).hull(
                RealInterval::multiple(a.max, max_by_min, max_by_max),
            );
            &&& p.wf()
            &&& p.holds(min_by_min)
            &&& p.holds(min_by_max)
            &&& p.holds(max_by_min)
            &&& p.holds(max_by_max)
        }),
{
}

/// A real power of an interval is in order, and holds the powers of both
/// bounds, as soon as the two powers are ordered as the power function runs:
/// rising for an exponent above zero, falling otherwise.
pub proof fn lemma_real_power_wf(exponent: u32, min_pow: u32, max_pow: u32)
    requires
        (if below(ZERO_BITS, exponent) {
            at_most(min_pow, max_pow)
        } else {
            at_most(max_pow, min_pow)
        }),
    ensures
        RealInterval::real_power(exponent, min_pow, max_pow).wf(),
        RealInterval::real_power(exponent, min_pow, max_pow).holds(min_pow),
        RealInterval::real_power(exponent, min_pow, max_pow).holds(max_pow),
{
}

/// An integer power of an interval is in order, and holds the powers of both
/// bounds, as soon as the two powers are ordered as the power function runs
/// over the interval: falling below zero for an even exponent, rising
/// elsewhere.
pub proof fn lemma_integer_power_wf(a: RealInterval, exponent: i32, min_pow: u32, max_pow: u32)
    requires
        a.wf(),
        !not_a_number(min_pow),
        !not_a_number(max_pow),
        exponent % 2 == 0 ==> at_most(ZERO_BITS, min_pow) && at_most(ZERO_BITS, max_pow),
        exponent % 2 == 0 && below(a.max, ZERO_BITS) ==> at_most(max_pow, min_pow),
        exponent % 2 != 0 || at_most(ZERO_BITS, a.min) ==> at_most(min_pow, max_pow),
    ensures
        a.integer_power(exponent, min_pow, max_pow).wf(),
        a.integer_power(exponent, min_pow, max_pow).holds(min_pow),
        a.integer_power(exponent, min_pow, max_pow).holds(max_pow),
{
}

} // verus!
