//! Rounding to the nearest whole number, halves away from zero, done on the
//! pattern and held against the value that the pattern stands for.

use crate::binary32::{
    at_most, exponent_field, fabs, fraction, magnitude, negative, EXPONENT_UNIT, SIGN_BIT,
};
use crate::value::{
    binade, distance, finite, lemma_distance_grows, lemma_key_orders_values, lemma_zero_distance,
    significand,
};
use vstd::arithmetic::div_mod::{lemma_div_is_ordered, lemma_fundamental_div_mod_converse};
use vstd::arithmetic::power2::{
    lemma2_to64, lemma_pow2_adds, lemma_pow2_pos, lemma_pow2_strictly_increases,
    lemma_pow2_unfold, pow2,
};
use vstd::prelude::*;

verus! {

/// The pattern of one.
pub const ONE_BITS: u32 = 0x3f80_0000;

/// The number one, in units of `2^-149`.
pub open spec fn one() -> int {
    pow2(149) as int
}

/// The whole number nearest to a distance from zero, a half going up; all
/// in units of `2^-149`.
pub open spec fn nearest_whole(d: int) -> int {
    ((2 * d + one()) / (2 * one())) * one()
}

/// Whether `r` is `b` rounded: a finite number keeps its sign and goes to the
/// nearest whole distance from zero, a half going away from zero; an
/// infinity or a NaN stays as it is.
pub open spec fn rounds_to(b: u32, r: u32) -> bool {
    if finite(b) {
        finite(r) && negative(r) == negative(b) && distance(r) == nearest_whole(distance(b))
    } else {
        r == b
    }
}

/// A distance of `k` whole units and a rest below one unit, doubled, is
/// nearest to `k`.
proof fn lemma_nearest(d: int, k: int, rest: int)
    requires
        0 <= rest < 2 * one(),
        2 * d + one() == k * (2 * one()) + rest,
    ensures
        nearest_whole(d) == k * one(),
{
    lemma_pow2_pos(149);
    lemma_fundamental_div_mod_converse(2 * d + one(), 2 * one(), k, rest);
}

/// From the exponent field 150 on every finite number is whole.
proof fn lemma_large_is_whole(b: u32)
    requires
        finite(b),
        exponent_field(b) >= 150,
    ensures
        rounds_to(b, b),
{
    let e = exponent_field(b);
    let s = significand(b);
    let lift = pow2((e - 150) as nat) as int;
    let u = one();
    lemma_pow2_adds((e - 150) as nat, 149);
    lemma_pow2_pos((e - 150) as nat);
    lemma_pow2_pos(149);
    assert(pow2(binade(b)) == lift * u);
    let k = s * lift;
    assert(distance(b) == k * u) by (nonlinear_arith)
        requires
            distance(b) == s * (lift * u),
            k == s * lift,
    ;
    assert(2 * (k * u) + u == k * (2 * u) + u) by (nonlinear_arith);
    lemma_nearest(distance(b), k, u);
}

/// Below the exponent field 126 every number is nearer to zero than to one.
proof fn lemma_small_rounds_to_zero(b: u32, r: u32)
    requires
        exponent_field(b) < 126,
        magnitude(r) == 0,
        negative(r) == negative(b),
    ensures
        rounds_to(b, r),
{
    let s = significand(b);
    let w = binade(b);
    let p = pow2(w) as int;
    lemma2_to64();
    lemma_pow2_pos(w);
    lemma_pow2_adds(24, 124);
    lemma_pow2_unfold(149);
    if w < 124 {
        lemma_pow2_strictly_increases(w, 124);
    }
    let top = pow2(124) as int;
    assert(s * p < 0x100_0000 * top) by (nonlinear_arith)
        requires
            0 <= s < 0x100_0000,
            0 < p <= top,
    ;
    assert(s * p >= 0) by (nonlinear_arith)
        requires
            0 <= s,
            0 < p,
    ;
    lemma_nearest(distance(b), 0, 2 * distance(b) + one());
    assert(distance(r) == 0) by (nonlinear_arith)
        requires
            distance(r) == 0 * pow2(0),
    ;
}

/// With the exponent field 126 a number lies from one half up to one, and
/// rounds to one.
proof fn lemma_half_rounds_to_one(b: u32, r: u32)
    requires
        exponent_field(b) == 126,
        magnitude(r) == ONE_BITS,
        negative(r) == negative(b),
    ensures
        rounds_to(b, r),
{
    let s = significand(b);
    let p = pow2(125) as int;
    lemma2_to64();
    lemma_pow2_pos(125);
    lemma_pow2_adds(23, 125);
    lemma_pow2_adds(24, 125);
    lemma_pow2_unfold(149);
    lemma_pow2_adds(23, 126);
    assert(0x80_0000 * p <= s * p < 0x100_0000 * p) by (nonlinear_arith)
        requires
            0x80_0000 <= s < 0x100_0000,
            0 < p,
    ;
    lemma_nearest(distance(b), 1, 2 * distance(b) - one());
    assert(exponent_field(r) == 127 && fraction(r) == 0);
    assert(distance(r) == one());
}

/// Between the exponent fields 127 and 149 the low `150 - e` bits of the
/// pattern are the part behind the point: adding half of their range and
/// clearing them rounds the number, and a carry into the exponent field is
/// the step to the next power of two.
proof fn lemma_middle_rounds(b: u32, q: int, r: u32)
    requires
        127 <= exponent_field(b) <= 149,
        q == pow2((150 - exponent_field(b)) as nat),
        magnitude(r) == (magnitude(b) + q / 2) - (magnitude(b) + q / 2) % q,
        negative(r) == negative(b),
    ensures
        rounds_to(b, r),
{
    let e = exponent_field(b);
    let f = fraction(b);
    let s = significand(b);
    let m = magnitude(b);
    let shift = (150 - e) as nat;
    let p = pow2((e - 1) as nat) as int;
    let c = pow2((23 - shift) as nat) as int;
    let h = pow2((shift - 1) as nat) as int;
    let u = one();
    lemma2_to64();
    lemma_pow2_pos((e - 1) as nat);
    lemma_pow2_pos((23 - shift) as nat);
    lemma_pow2_pos((shift - 1) as nat);
    lemma_pow2_adds(shift, (e - 1) as nat);
    lemma_pow2_adds(shift, (23 - shift) as nat);
    lemma_pow2_unfold(shift);
    lemma_pow2_unfold(e as nat);
    assert(u == q * p);
    assert(0x80_0000 == q * c);
    assert(q == 2 * h);
    assert(q / 2 == h);
    assert(m == e * 0x80_0000 + f);
    assert(s == 0x80_0000 + f);

    // The significand with half a step added, cut into steps.
    let k = (s + h) / q;
    let rest = (s + h) % q;
    assert(s + h == k * q + rest && 0 <= rest < q) by (nonlinear_arith)
        requires
            k == (s + h) / q,
            rest == (s + h) % q,
            q > 0,
    ;

    // The same cut is made in the pattern, whose higher bits are whole steps.
    let t = m + h;
    let above = (e - 1) * c + k;
    assert(t == above * q + rest) by (nonlinear_arith)
        requires
            t == (e - 1) * 0x80_0000 + (s + h),
            0x80_0000 == q * c,
            s + h == k * q + rest,
            above == (e - 1) * c + k,
    ;
    lemma_fundamental_div_mod_converse(t, q, above, rest);
    let kept = magnitude(r);
    assert(kept == (e - 1) * 0x80_0000 + k * q) by (nonlinear_arith)
        requires
            kept == t - rest,
            t == above * q + rest,
            0x80_0000 == q * c,
            above == (e - 1) * c + k,
    ;

    // The steps that are kept lie between the two powers of two around.
    assert(c <= k <= 2 * c) by (nonlinear_arith)
        requires
            s + h == k * q + rest,
            0 <= rest < q,
            q == 2 * h,
            0 < h,
            0x80_0000 == q * c,
            0x80_0000 <= s < 0x100_0000,
    ;
    assert(0x80_0000 <= k * q <= 0x100_0000) by (nonlinear_arith)
        requires
            c <= k <= 2 * c,
            0x80_0000 == q * c,
            q > 0,
    ;
    if k * q < 0x100_0000 {
        assert(exponent_field(r) == e && fraction(r) == k * q - 0x80_0000);
        assert(significand(r) == k * q);
        assert(distance(r) == (k * q) * p);
    } else {
        assert(kept == (e + 1) * 0x80_0000);
        assert(exponent_field(r) == e + 1 && fraction(r) == 0);
        assert(pow2(e as nat) == 2 * p);
        assert(distance(r) == 0x80_0000 * (2 * p));
        assert(distance(r) == (k * q) * p) by (nonlinear_arith)
            requires
                distance(r) == 0x80_0000 * (2 * p),
                k * q == 0x100_0000,
        ;
    }
    assert((k * q) * p == k * u) by (nonlinear_arith)
        requires
            u == q * p,
    ;

    // The value asks for the same number of whole units.
    let d = distance(b);
    let doubled_rest = 2 * rest * p;
    assert(2 * d + u == k * (2 * u) + doubled_rest && 0 <= doubled_rest < 2 * u)
        by (nonlinear_arith)
        requires
            d == s * p,
            u == q * p,
            q == 2 * h,
            s + h == k * q + rest,
            0 <= rest < q,
            0 < p,
            doubled_rest == 2 * rest * p,
    ;
    lemma_nearest(d, k, doubled_rest);
}

/// Rounding distances from zero keeps their order, and leaves none below
/// zero.
proof fn lemma_nearest_grows(d1: int, d2: int)
    requires
        0 <= d1 <= d2,
    ensures
        0 <= nearest_whole(d1) <= nearest_whole(d2),
        d1 == 0 ==> nearest_whole(d1) == 0,
{
    let u = one();
    lemma_pow2_pos(149);
    lemma_nearest(0, 0, u);
    lemma_div_is_ordered(u, 2 * d1 + u, 2 * u);
    lemma_div_is_ordered(2 * d1 + u, 2 * d2 + u, 2 * u);
    let k0 = u / (2 * u);
    let k1 = (2 * d1 + u) / (2 * u);
    let k2 = (2 * d2 + u) / (2 * u);
    assert(k0 * u == 0);
    assert(k0 * u <= k1 * u <= k2 * u) by (nonlinear_arith)
        requires
            k0 <= k1 <= k2,
            0 < u,
    ;
}

/// A number rounds to one pattern only.
pub proof fn lemma_round_is_unique(b: u32, r1: u32, r2: u32)
    requires
        rounds_to(b, r1),
        rounds_to(b, r2),
    ensures
        r1 == r2,
{
    if finite(b) {
        if magnitude(r1) < magnitude(r2) {
            lemma_distance_grows(r1, r2);
        } else if magnitude(r2) < magnitude(r1) {
            lemma_distance_grows(r2, r1);
        }
    }
}

/// Rounding keeps the order of two numbers.
pub proof fn lemma_round_keeps_order(a: u32, b: u32, ra: u32, rb: u32)
    requires
        at_most(a, b),
        rounds_to(a, ra),
        rounds_to(b, rb),
    ensures
        at_most(ra, rb),
{
    if finite(a) && finite(b) {
        lemma_key_orders_values(a, b);
        lemma_key_orders_values(ra, rb);
        lemma_zero_distance(a);
        lemma_zero_distance(b);
        lemma_zero_distance(ra);
        lemma_zero_distance(rb);
        if negative(a) && negative(b) {
            lemma_nearest_grows(distance(b), distance(a));
        } else if !negative(a) && !negative(b) {
            lemma_nearest_grows(distance(a), distance(b));
        } else if negative(a) {
            lemma_nearest_grows(0, distance(a));
            lemma_nearest_grows(0, distance(b));
        } else {
            lemma_nearest_grows(distance(a), distance(a));
            lemma_nearest_grows(distance(b), distance(b));
        }
    } else if finite(a) {
        assert(rb == b);
        assert(magnitude(ra) <= 0x7f7f_ffff);
    } else if finite(b) {
        assert(ra == a);
        assert(magnitude(rb) <= 0x7f7f_ffff);
    }
}

/// The power of two of a small exponent.
fn power_of_two(shift: u32) -> (q: u32)
    requires
        shift <= 23,
    ensures
        q == pow2(shift as nat),
        1 <= q <= 0x80_0000,
{
    let mut q: u32 = 1;
    let mut i: u32 = 0;
    proof {
        lemma2_to64();
    }
    while i < shift
        invariant
            i <= shift <= 23,
            q == pow2(i as nat),
            1 <= q,
            i < 23 ==> q < 0x80_0000,
            q <= 0x80_0000,
        decreases shift - i,
    {
        proof {
            lemma2_to64();
            lemma_pow2_unfold((i + 1) as nat);
            if i + 1 < 23 {
                lemma_pow2_strictly_increases((i + 1) as nat, 23);
            }
        }
        q = q * 2;
        i = i + 1;
    }
    q
}

/// Rounds a number to the nearest whole number, a half going away from zero.
pub fn fround(b: u32) -> (r: u32)
    ensures
        rounds_to(b, r),
{
    let sign: u32 = if b >= SIGN_BIT {
        SIGN_BIT
    } else {
        0
    };
    let m: u32 = fabs(b);
    let e: u32 = m / EXPONENT_UNIT;
    if e >= 150 {
        proof {
            if finite(b) {
                lemma_large_is_whole(b);
            }
        }
        b
    } else if e < 126 {
        proof {
            lemma_small_rounds_to_zero(b, sign);
        }
        sign
    } else if e == 126 {
        proof {
            lemma_half_rounds_to_one(b, (sign + ONE_BITS) as u32);
        }
        sign + ONE_BITS
    } else {
        let q: u32 = power_of_two(150 - e);
        let t: u32 = m + q / 2;
        let kept: u32 = t - t % q;
        proof {
            assert(kept <= t);
            assert(t < 0x4b80_0000);
            lemma_middle_rounds(b, q as int, (sign + kept) as u32);
        }
        sign + kept
    }
}

} // verus!
