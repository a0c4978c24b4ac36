//! The interval type and its operations.

use crate::binary32::{
    at_most, below, cleared_sign, equal, fabs, flipped_sign, fmax, fmin, fneg, greater, ldexp, le,
    lesser, lt, not_a_number, same, scalable, scaled, verify_ldexp, ZERO_BITS,
};
use crate::rounding::{fround, lemma_round_keeps_order, rounds_to};
use vstd::prelude::*;

verus! {

/// A closed range `[min, max]` of binary32 numbers, each bound held as its
/// 32-bit pattern.
#[derive(Clone, Copy, Debug)]
pub struct RealInterval {
    /// The pattern of the starting value of this range.
    pub min: u32,
    /// The pattern of the ending value of this range.
    pub max: u32,
}

impl PartialEq for RealInterval {
    fn eq(&self, other: &Self) -> (r: bool) {
        same(self.min, other.min) && same(self.max, other.max)
    }
}

impl vstd::std_specs::cmp::PartialEqSpecImpl for RealInterval {
    open spec fn obeys_eq_spec() -> bool {
        true
    }

    open spec fn eq_spec(&self, other: &Self) -> bool {
        equal(self.min, other.min) && equal(self.max, other.max)
    }
}

impl Default for RealInterval {
    fn default() -> (r: Self)
        ensures
            r.min == ZERO_BITS,
            r.max == ZERO_BITS,
            r.wf(),
    {
        RealInterval { min: ZERO_BITS, max: ZERO_BITS }
    }
}

impl RealInterval {
    /// The invariant of a live interval: both bounds are numbers and
    /// `min <= max`.
    pub open spec fn wf(self) -> bool {
        at_most(self.min, self.max)
    }

    /// Whether `value` lies within the interval.
    pub open spec fn holds(self, value: u32) -> bool {
        at_most(self.min, value) && at_most(value, self.max)
    }

    /// Whether the interval has values on both sides of zero: `min < 0 <= max`.
    pub open spec fn straddles_zero(self) -> bool {
        below(self.min, ZERO_BITS) && at_most(ZERO_BITS, self.max)
    }

    /// Numeric equality of both pairs of bounds, as `==` decides it.
    pub open spec fn same_as(self, rhs: Self) -> bool {
        equal(self.min, rhs.min) && equal(self.max, rhs.max)
    }

    /// The interval of the absolute values. Across zero the lower bound is
    /// zero and the upper one the larger of the two distances from zero;
    /// elsewhere the two absolute bounds, put in order.
    pub open spec fn magnitudes(self) -> Self {
        if self.straddles_zero() {
            RealInterval { min: ZERO_BITS, max: greater(self.max, cleared_sign(self.min)) }
        } else {
            RealInterval {
                min: lesser(cleared_sign(self.min), cleared_sign(self.max)),
                max: greater(cleared_sign(self.min), cleared_sign(self.max)),
            }
        }
    }

    /// The lesser of the lower bounds and the lesser of the upper bounds.
    pub open spec fn lesser_bounds(self, rhs: Self) -> Self {
        RealInterval { min: lesser(self.min, rhs.min), max: lesser(self.max, rhs.max) }
    }

    /// The greater of the lower bounds and the greater of the upper bounds.
    pub open spec fn greater_bounds(self, rhs: Self) -> Self {
        RealInterval { min: greater(self.min, rhs.min), max: greater(self.max, rhs.max) }
    }

    /// The smallest interval around both: lesser lower bound, greater upper
    /// bound.
    pub open spec fn hull(self, rhs: Self) -> Self {
        RealInterval { min: lesser(self.min, rhs.min), max: greater(self.max, rhs.max) }
    }

    /// The common part, where there is one: greater lower bound, lesser
    /// upper bound, as long as they are in order.
    pub open spec fn overlap(self, rhs: Self) -> Option<Self> {
        let candidate = RealInterval {
            min: greater(self.min, rhs.min),
            max: lesser(self.max, rhs.max),
        };
        if candidate.wf() {
            Some(candidate)
        } else {
            None
        }
    }

    /// The interval of the negated values: the bounds change sign and place.
    pub open spec fn mirrored(self) -> Self {
        RealInterval { min: flipped_sign(self.max), max: flipped_sign(self.min) }
    }

    /// Both bounds after `exp` was added to their exponent fields.
    pub open spec fn rescaled(self, exp: i32) -> Self {
        RealInterval { min: scaled(self.min, exp), max: scaled(self.max, exp) }
    }

    /// The bounds of the multiples of an interval by `factor`, given the
    /// products of `factor` with its lower and upper bound: a factor that
    /// is not at least zero turns the order of the bounds around.
    pub open spec fn multiple(factor: u32, by_min: u32, by_max: u32) -> Self {
        if at_most(ZERO_BITS, factor) {
            RealInterval { min: by_min, max: by_max }
        } else {
            RealInterval { min: by_max, max: by_min }
        }
    }

    /// The bounds of the powers of a non-negative interval for a real
    /// exponent, given the powers of its bounds: rising for an exponent above
    /// zero, falling otherwise.
    pub open spec fn real_power(exponent: u32, min_pow: u32, max_pow: u32) -> Self {
        if below(ZERO_BITS, exponent) {
            RealInterval { min: min_pow, max: max_pow }
        } else {
            RealInterval { min: max_pow, max: min_pow }
        }
    }

    /// The bounds of the powers of an interval for an integer exponent, given
    /// the powers of its bounds. An even power falls below zero and rises
    /// above it, and reaches zero where the interval has values on both
    /// sides; an odd power keeps the bounds in place.
    pub open spec fn integer_power(self, exponent: i32, min_pow: u32, max_pow: u32) -> Self {
        if exponent % 2 == 0 {
            if self.straddles_zero() {
                RealInterval { min: ZERO_BITS, max: greater(min_pow, max_pow) }
            } else if at_most(ZERO_BITS, self.min) {
                RealInterval { min: min_pow, max: max_pow }
            } else {
                RealInterval { min: max_pow, max: min_pow }
            }
        } else {
            RealInterval { min: min_pow, max: max_pow }
        }
    }

    /// Creates a new interval from the given minimum and maximum. The
    /// maximum must be at least as big as the minimum.
    pub fn min_max(min: u32, max: u32) -> (r: Self)
        requires
            at_most(min, max),
        ensures
            r.min == min,
            r.max == max,
            r.wf(),
    {
        RealInterval { min, max }
    }

    /// Creates a range that contains a single point.
    pub fn point(value: u32) -> (r: Self)
        ensures
            r.min == value,
            r.max == value,
            !not_a_number(value) ==> r.wf() && r.holds(value),
    {
        RealInterval { min: value, max: value }
    }

    /// Creates a range from the two ends reached from a point by going the
    /// half extent down and up. The half extent must be at least zero.
    pub fn point_extents(half_extent: u32, below_point: u32, above_point: u32) -> (r: Self)
        requires
            at_most(ZERO_BITS, half_extent),
        ensures
            r.min == below_point,
            r.max == above_point,
    {
        RealInterval { min: below_point, max: above_point }
    }

    /// Determines whether the provided value lies within this interval.
    pub fn contains(self, value: u32) -> (r: bool)
        ensures
            r == self.holds(value),
    {
        le(self.min, value) && le(value, self.max)
    }

    /// Takes the absolute value of this range.
    pub fn abs(self) -> (r: Self)
        ensures
            r == self.magnitudes(),
            self.wf() ==> r.wf(),
    {
        if lt(self.min, ZERO_BITS) && le(ZERO_BITS, self.max) {
            RealInterval { min: ZERO_BITS, max: fmax(self.max, fabs(self.min)) }
        } else {
            let a: u32 = fabs(self.min);
            let b: u32 = fabs(self.max);
            RealInterval { min: fmin(a, b), max: fmax(a, b) }
        }
    }

    /// Applies the minimum function between two ranges, bound by bound.
    pub fn min(self, rhs: Self) -> (r: Self)
        ensures
            r == self.lesser_bounds(rhs),
            self.wf() && rhs.wf() ==> r.wf(),
    {
        RealInterval { min: fmin(self.min, rhs.min), max: fmin(self.max, rhs.max) }
    }

    /// Applies the maximum function between two ranges, bound by bound.
    pub fn max(self, rhs: Self) -> (r: Self)
        ensures
            r == self.greater_bounds(rhs),
            self.wf() && rhs.wf() ==> r.wf(),
    {
        RealInterval { min: fmax(self.min, rhs.min), max: fmax(self.max, rhs.max) }
    }

    /// Applies a scalar minimum to this range.
    pub fn minf(self, value: u32) -> (r: Self)
        ensures
            r == self.lesser_bounds((RealInterval { min: value, max: value })),
            self.wf() ==> r.wf(),
    {
        RealInterval { min: fmin(self.min, value), max: fmin(self.max, value) }
    }

    /// Applies a scalar maximum to this range.
    pub fn maxf(self, value: u32) -> (r: Self)
        ensures
            r == self.greater_bounds((RealInterval { min: value, max: value })),
            self.wf() ==> r.wf(),
    {
        RealInterval { min: fmax(self.min, value), max: fmax(self.max, value) }
    }

    /// Applies a scalar power to this range, which must be non-negative.
    /// `min_pow` and `max_pow` are the lower and the upper bound raised to
    /// `exponent`.
    pub fn powf(self, exponent: u32, min_pow: u32, max_pow: u32) -> (r: Self)
        requires
            at_most(ZERO_BITS, self.min),
        ensures
            r == Self::real_power(exponent, min_pow, max_pow),
    {
        if lt(ZERO_BITS, exponent) {
            RealInterval { min: min_pow, max: max_pow }
        } else {
            RealInterval { min: max_pow, max: min_pow }
        }
    }

    /// Applies an integral scalar power to this range. `min_pow` and
    /// `max_pow` are the lower and the upper bound raised to `exponent`.
    pub fn powi(self, exponent: i32, min_pow: u32, max_pow: u32) -> (r: Self)
        ensures
            r == self.integer_power(exponent, min_pow, max_pow),
    {
        if is_even(exponent) {
            if lt(self.min, ZERO_BITS) && le(ZERO_BITS, self.max) {
                RealInterval { min: ZERO_BITS, max: fmax(min_pow, max_pow) }
            } else if le(ZERO_BITS, self.min) {
                RealInterval { min: min_pow, max: max_pow }
            } else {
                RealInterval { min: max_pow, max: min_pow }
            }
        } else {
            RealInterval { min: min_pow, max: max_pow }
        }
    }

    /// Multiplies this range by the provided integer power of 2, or gives
    /// nothing where the exponent field of a bound has no room for it.
    pub fn mul_pow2(self, value: i32) -> (r: Option<Self>)
        ensures
            r == (if scalable(self.min, value) && scalable(self.max, value) {
                Some(self.rescaled(value))
            } else {
                None
            }),
    {
        if verify_ldexp(self.min, value) && verify_ldexp(self.max, value) {
            Some(self.mul_pow2_unchecked(value))
        } else {
            None
        }
    }

    /// Multiplies this range by the provided integer power of 2 without
    /// looking for room in the exponent fields. Where a field has none, the
    /// result is the wrapped sum and no product.
    pub fn mul_pow2_unchecked(self, value: i32) -> (r: Self)
        ensures
            r == self.rescaled(value),
    {
        RealInterval { min: ldexp(self.min, value), max: ldexp(self.max, value) }
    }

    /// Rounds both bounds of this range to the nearest whole number, a half
    /// going away from zero.
    pub fn round(self) -> (r: Self)
        ensures
            rounds_to(self.min, r.min),
            rounds_to(self.max, r.max),
            self.wf() ==> r.wf(),
    {
        let min: u32 = fround(self.min);
        let max: u32 = fround(self.max);
        proof {
            if self.wf() {
                lemma_round_keeps_order(self.min, self.max, min, max);
            }
        }
        RealInterval { min, max }
    }

    /// The common part of two ranges, if they have one.
    pub fn intersect(self, rhs: Self) -> (r: Option<Self>)
        ensures
            r == self.overlap(rhs),
            r.is_some() ==> r.unwrap().wf(),
    {
        let min: u32 = fmax(self.min, rhs.min);
        let max: u32 = fmin(self.max, rhs.max);
        if le(min, max) {
            Some(RealInterval { min, max })
        } else {
            None
        }
    }

    /// The smallest range around two ranges.
    pub fn union(self, rhs: Self) -> (r: Self)
        ensures
            r == self.hull(rhs),
            self.wf() && rhs.wf() ==> r.wf(),
    {
        RealInterval { min: fmin(self.min, rhs.min), max: fmax(self.max, rhs.max) }
    }

    /// The range of the negated values.
    pub fn negate(self) -> (r: Self)
        ensures
            r == self.mirrored(),
            self.wf() ==> r.wf(),
    {
        RealInterval { min: fneg(self.max), max: fneg(self.min) }
    }

    /// The range of the multiples of a range by a scalar. `by_min` and
    /// `by_max` are the products of `factor` with the lower and the upper
    /// bound of the range.
    pub fn mul_scalar(factor: u32, by_min: u32, by_max: u32) -> (r: Self)
        ensures
            r == Self::multiple(factor, by_min, by_max),
    {
        if le(ZERO_BITS, factor) {
            RealInterval { min: by_min, max: by_max }
        } else {
            RealInterval { min: by_max, max: by_min }
        }
    }

    /// The range of the products of two ranges: the hull of the multiples of
    /// the right-hand range by each bound of this one. The four arguments are
    /// the products of this range's lower bound with the other's lower and
    /// upper bound, then those of its upper bound.
    pub fn mul_interval(
        self,
        min_by_min: u32,
        min_by_max: u32,
        max_by_min: u32,
        max_by_max: u32,
    ) -> (r: Self)
        ensures
            r == Self::multiple(self.min, min_by_min, min_by_max).hull(
                Self::multiple(self.max, max_by_min, max_by_max),
            ),
    {
        let lower = Self::mul_scalar(self.min, min_by_min, min_by_max);
        let upper = Self::mul_scalar(self.max, max_by_min, max_by_max);
        lower.union(upper)
    }
}

/// Tells whether an integer is a multiple of two.
fn is_even(n: i32) -> (r: bool)
    ensures
        r == (n % 2 == 0),
{
    n % 2 == 0
}

} // verus!
