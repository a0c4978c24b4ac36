use real_interval::binary32::{
    exponent, fabs, fmax, fmin, fneg, is_nan, ldexp, le, lt, order_key, same, verify_ldexp,
};
use real_interval::RealInterval;
use real_interval::rounding::fround;

fn bits(x: f32) -> u32 {
    x.to_bits()
}

fn num(b: u32) -> f32 {
    f32::from_bits(b)
}

fn range(min: f32, max: f32) -> RealInterval {
    assert!(min <= max);
    RealInterval::min_max(bits(min), bits(max))
}

fn plus_scalar(a: RealInterval, s: f32) -> RealInterval {
    RealInterval { min: bits(num(a.min) + s), max: bits(num(a.max) + s) }
}

fn plus(a: RealInterval, b: RealInterval) -> RealInterval {
    RealInterval { min: bits(num(a.min) + num(b.min)), max: bits(num(a.max) + num(b.max)) }
}

fn minus(a: RealInterval, b: RealInterval) -> RealInterval {
    RealInterval { min: bits(num(a.min) - num(b.max)), max: bits(num(a.max) - num(b.min)) }
}

fn times_scalar(a: RealInterval, s: f32) -> RealInterval {
    RealInterval::mul_scalar(bits(s), bits(s * num(a.min)), bits(s * num(a.max)))
}

fn times(a: RealInterval, b: RealInterval) -> RealInterval {
    let (lo, hi) = (num(a.min), num(a.max));
    a.mul_interval(
        bits(lo * num(b.min)),
        bits(lo * num(b.max)),
        bits(hi * num(b.min)),
        bits(hi * num(b.max)),
    )
}

fn powi(a: RealInterval, n: i32) -> RealInterval {
    a.powi(n, bits(num(a.min).powi(n)), bits(num(a.max).powi(n)))
}

fn powf(a: RealInterval, e: f32) -> RealInterval {
    assert!(num(a.min) >= 0.0);
    a.powf(bits(e), bits(num(a.min).powf(e)), bits(num(a.max).powf(e)))
}

fn samples() -> Vec<f32> {
    vec![
        0.0,
        -0.0,
        1.0,
        -1.0,
        0.5,
        -0.5,
        1.5,
        -2.25,
        3.0,
        1.0e-40,
        -1.0e-40,
        f32::MIN_POSITIVE,
        f32::MAX,
        f32::MIN,
        f32::INFINITY,
        f32::NEG_INFINITY,
        f32::NAN,
        -f32::NAN,
        123456.79,
        -0.001,
    ]
}

#[test]
fn test_addition_and_sets() {
    let interval = range(-1.0, 2.0);
    let shifted_interval = plus_scalar(interval, 0.5);
    let expanded_interval = times(range(-2.0, 3.0), interval);

    assert_eq!(range(-0.5, 2.5), shifted_interval);
    assert_eq!(range(-4.0, 6.0), expanded_interval);

    let and_interval = interval.intersect(shifted_interval);
    let or_interval = interval.union(shifted_interval);

    assert_eq!(Some(range(-0.5, 2.0)), and_interval);
    assert_eq!(range(-1.0, 2.5), or_interval);
}

#[test]
fn order_follows_the_numbers() {
    for &x in samples().iter() {
        for &y in samples().iter() {
            assert_eq!(le(bits(x), bits(y)), x <= y, "{x} <= {y}");
            assert_eq!(lt(bits(x), bits(y)), x < y, "{x} < {y}");
            assert_eq!(same(bits(x), bits(y)), x == y, "{x} == {y}");
        }
    }
}

#[test]
fn nan_is_told_from_numbers() {
    for &x in samples().iter() {
        assert_eq!(is_nan(bits(x)), x.is_nan());
    }
    assert!(is_nan(0x7f80_0001));
    assert!(is_nan(0xffff_ffff));
    assert!(!is_nan(0x7f80_0000));
    assert!(!is_nan(0xff80_0000));
}

#[test]
fn order_key_is_the_signed_magnitude() {
    assert_eq!(order_key(bits(0.0)), 0);
    assert_eq!(order_key(bits(-0.0)), 0);
    assert_eq!(order_key(bits(1.0)), 0x3f80_0000);
    assert_eq!(order_key(bits(-1.0)), -0x3f80_0000);
    assert_eq!(order_key(bits(f32::NEG_INFINITY)), -0x7f80_0000);
}

#[test]
fn lesser_and_greater_ignore_a_nan() {
    for &x in samples().iter() {
        for &y in samples().iter() {
            let lo = num(fmin(bits(x), bits(y)));
            let hi = num(fmax(bits(x), bits(y)));
            let (want_lo, want_hi) = (x.min(y), x.max(y));
            assert!(lo == want_lo || (lo.is_nan() && want_lo.is_nan()), "min({x}, {y})");
            assert!(hi == want_hi || (hi.is_nan() && want_hi.is_nan()), "max({x}, {y})");
        }
    }
    assert_eq!(fmin(bits(2.0), bits(-3.0)), bits(-3.0));
    assert_eq!(fmax(bits(2.0), bits(-3.0)), bits(2.0));
    assert_eq!(fmin(bits(f32::NAN), bits(4.0)), bits(4.0));
    assert_eq!(fmax(bits(4.0), bits(f32::NAN)), bits(4.0));
}

#[test]
fn sign_changes_match_the_numbers() {
    for &x in samples().iter() {
        assert_eq!(fabs(bits(x)), bits(x.abs()));
        assert_eq!(fneg(bits(x)), bits(-x));
    }
}

#[test]
fn exponent_reads_bits_23_to_30() {
    for &x in samples().iter() {
        assert_eq!(exponent(bits(x)), (bits(x) >> 23) & 0xff);
    }
    assert_eq!(exponent(bits(1.0)), 127);
    assert_eq!(exponent(bits(-2.0)), 128);
    assert_eq!(exponent(bits(0.0)), 0);
    assert_eq!(exponent(bits(f32::INFINITY)), 255);
}

#[test]
fn ldexp_adds_into_the_exponent_field() {
    assert_eq!(ldexp(bits(1.0), 1), bits(2.0));
    assert_eq!(ldexp(bits(1.0), -1), bits(0.5));
    assert_eq!(ldexp(bits(-1.5), 3), bits(-12.0));
    assert_eq!(ldexp(bits(-12.0), -3), bits(-1.5));
    assert_eq!(ldexp(bits(3.0), 0), bits(3.0));
    for &x in samples().iter() {
        for n in [-300, -129, -2, -1, 0, 1, 2, 77, 255, 256, 511, 512, 1000, i32::MIN, i32::MAX] {
            let want = bits(x).wrapping_add((n << 23) as u32);
            assert_eq!(ldexp(bits(x), n), want, "{x} by {n}");
        }
    }
}

#[test]
fn verify_ldexp_keeps_the_field_in_range() {
    assert!(verify_ldexp(bits(1.0), 128));
    assert!(!verify_ldexp(bits(1.0), 129));
    assert!(verify_ldexp(bits(1.0), -127));
    assert!(!verify_ldexp(bits(1.0), -128));
    assert!(!verify_ldexp(bits(1.0), 256));
    assert!(!verify_ldexp(bits(0.0), 256));
    assert!(verify_ldexp(bits(0.0), 255));
    assert!(verify_ldexp(bits(0.0), 0));
    assert!(!verify_ldexp(bits(0.0), -1));
    assert!(!verify_ldexp(bits(f32::INFINITY), 1));
    assert!(verify_ldexp(bits(f32::INFINITY), -255));
    assert!(!verify_ldexp(bits(2.0), i32::MIN));
    assert!(!verify_ldexp(bits(2.0), i32::MAX));
}

#[test]
fn mul_pow2_equals_the_product() {
    let values = [1.0f32, -1.0, 1.5, -3.25, 1.0e10, -7.0e-12, 123456.79];
    for &lo in values.iter() {
        for &hi in values.iter() {
            if lo > hi {
                continue;
            }
            for n in [-20i32, -3, -1, 0, 1, 2, 17] {
                let scaled = range(lo, hi).mul_pow2(n).expect("in range");
                let factor = 2.0f32.powi(n);
                assert_eq!(num(scaled.min), lo * factor);
                assert_eq!(num(scaled.max), hi * factor);
                assert_eq!(scaled, range(lo, hi).mul_pow2_unchecked(n));
                assert_eq!(scaled, times_scalar(range(lo, hi), factor));
            }
        }
    }
}

#[test]
fn mul_pow2_gives_nothing_out_of_range() {
    assert_eq!(range(1.0, 2.0).mul_pow2(128), None);
    assert_eq!(range(1.0, 2.0).mul_pow2(127), Some(range(2.0f32.powi(127), f32::INFINITY)));
    assert_eq!(range(1.0, 2.0).mul_pow2(-128), None);
    assert_eq!(range(0.5, 2.0).mul_pow2(-127), None);
    assert_eq!(range(1.0, 2.0).mul_pow2(256), None);
    assert_eq!(range(1.0, 2.0).mul_pow2(i32::MAX), None);
    assert_eq!(range(1.0, 2.0).mul_pow2(i32::MIN), None);
    assert_eq!(range(0.0, 1.0).mul_pow2(-1), None);
    assert_eq!(range(1.0, 2.0).mul_pow2(3), Some(range(8.0, 16.0)));
    assert_eq!(range(-4.0, 2.0).mul_pow2(-2), Some(range(-1.0, 0.5)));
}

#[test]
fn min_max_keeps_its_bounds() {
    let a = range(-1.0, 2.0);
    assert_eq!(a.min, bits(-1.0));
    assert_eq!(a.max, bits(2.0));
    let p = range(3.0, 3.0);
    assert_eq!(p, RealInterval::point(bits(3.0)));
}

#[test]
fn point_holds_its_value() {
    for &x in samples().iter() {
        if x.is_nan() {
            continue;
        }
        let p = RealInterval::point(bits(x));
        assert!(p.contains(bits(x)));
        assert_eq!(num(p.max) - num(p.min) == 0.0, x.is_finite());
    }
    assert!(!RealInterval::point(bits(f32::NAN)).contains(bits(f32::NAN)));
}

#[test]
fn point_extents_takes_both_ends() {
    let (center, half) = (2.0f32, 0.5f32);
    let r = RealInterval::point_extents(bits(half), bits(center - half), bits(center + half));
    assert_eq!(r, range(1.5, 2.5));
    let p = RealInterval::point_extents(bits(0.0), bits(center), bits(center));
    assert_eq!(p, RealInterval::point(bits(center)));
}

#[test]
fn contains_is_closed_at_both_ends() {
    let a = range(-1.0, 2.0);
    assert!(a.contains(bits(-1.0)));
    assert!(a.contains(bits(2.0)));
    assert!(a.contains(bits(0.0)));
    assert!(a.contains(bits(-0.0)));
    assert!(!a.contains(bits(2.0000002)));
    assert!(!a.contains(bits(-1.0000001)));
    assert!(!a.contains(bits(f32::NAN)));
}

#[test]
fn abs_across_zero_starts_at_zero() {
    assert_eq!(range(-3.0, 2.0).abs(), range(0.0, 3.0));
    assert_eq!(range(-1.0, 2.0).abs(), range(0.0, 2.0));
    assert_eq!(range(-1.0, 0.0).abs(), range(0.0, 1.0));
}

#[test]
fn abs_on_one_side_orders_the_bounds() {
    assert_eq!(range(-3.0, -2.0).abs(), range(2.0, 3.0));
    assert_eq!(range(2.0, 3.0).abs(), range(2.0, 3.0));
    assert_eq!(range(0.0, 3.0).abs(), range(0.0, 3.0));
}

#[test]
fn abs_encloses_the_absolute_values() {
    let a = range(-3.0, 2.0);
    for &v in [-3.0f32, -2.5, -0.0, 0.0, 1.0, 2.0].iter() {
        assert!(a.contains(bits(v)));
        assert!(a.abs().contains(bits(v.abs())));
    }
}

#[test]
fn bound_wise_minimum_and_maximum() {
    let a = range(-1.0, 2.0);
    let b = range(-0.5, 1.0);
    assert_eq!(a.min(b), range(-1.0, 1.0));
    assert_eq!(a.max(b), range(-0.5, 2.0));
    assert_eq!(a.minf(bits(0.5)), range(-1.0, 0.5));
    assert_eq!(a.maxf(bits(0.5)), range(0.5, 2.0));
    assert_eq!(a.minf(bits(-4.0)), range(-4.0, -4.0));
    assert_eq!(a.maxf(bits(f32::NAN)), a);
}

#[test]
fn powf_swaps_for_exponents_up_to_zero() {
    assert_eq!(powf(range(1.0, 4.0), 0.5), range(1.0, 2.0));
    assert_eq!(powf(range(1.0, 4.0), 2.0), range(1.0, 16.0));
    assert_eq!(powf(range(1.0, 4.0), -1.0), range(0.25, 1.0));
    assert_eq!(powf(range(1.0, 4.0), 0.0), range(1.0, 1.0));
}

#[test]
fn powi_even_exponents() {
    assert_eq!(powi(range(-1.0, 2.0), 2), range(0.0, 4.0));
    assert_eq!(powi(range(-3.0, 2.0), 2), range(0.0, 9.0));
    assert_eq!(powi(range(1.0, 2.0), 2), range(1.0, 4.0));
    assert_eq!(powi(range(-3.0, -2.0), 2), range(4.0, 9.0));
    assert_eq!(powi(range(-3.0, -2.0), 0), range(1.0, 1.0));
    let r = powi(range(-4.0, -2.0), -2);
    assert_eq!(num(r.min), 0.25);
    assert_eq!(num(r.max), 0.0625);
}

#[test]
fn powi_odd_exponents_keep_the_bounds_in_place() {
    assert_eq!(powi(range(-1.0, 2.0), 3), range(-1.0, 8.0));
    assert_eq!(powi(range(-3.0, -2.0), 3), range(-27.0, -8.0));
    let r = powi(range(2.0, 4.0), -1);
    assert_eq!(num(r.min), 0.5);
    assert_eq!(num(r.max), 0.25);
    let s = powi(range(-4.0, -2.0), -3);
    assert_eq!(num(s.min), -0.015625);
    assert_eq!(num(s.max), -0.125);
}

#[test]
fn scalar_product_swaps_for_a_negative_factor() {
    assert_eq!(times_scalar(range(-1.0, 2.0), 2.0), range(-2.0, 4.0));
    assert_eq!(times_scalar(range(-1.0, 2.0), -2.0), range(-4.0, 2.0));
    assert_eq!(times_scalar(range(-1.0, 2.0), 0.0), range(0.0, 0.0));
    assert_eq!(
        RealInterval::mul_scalar(bits(-1.0), bits(5.0), bits(7.0)),
        RealInterval { min: bits(7.0), max: bits(5.0) }
    );
}

#[test]
fn interval_product_is_the_hull_of_both_multiples() {
    assert_eq!(times(range(-2.0, 3.0), range(-1.0, 2.0)), range(-4.0, 6.0));
    assert_eq!(times(range(1.0, 2.0), range(3.0, 4.0)), range(3.0, 8.0));
    assert_eq!(times(range(-2.0, -1.0), range(3.0, 4.0)), range(-8.0, -3.0));
    assert_eq!(times(range(-2.0, -1.0), range(-4.0, -3.0)), range(3.0, 8.0));
}

#[test]
fn products_enclose_the_products_of_points() {
    let a = range(-2.0, 3.0);
    let b = range(-1.0, 2.0);
    let p = times(a, b);
    let s = plus(a, b);
    let d = minus(a, b);
    for &x in [-2.0f32, -1.0, 0.0, 0.75, 3.0].iter() {
        for &y in [-1.0f32, -0.25, 0.0, 1.5, 2.0].iter() {
            assert!(p.contains(bits(x * y)));
            assert!(s.contains(bits(x + y)));
            assert!(d.contains(bits(x - y)));
        }
    }
}

#[test]
fn intersection_of_overlapping_ranges() {
    let a = range(-1.0, 2.0);
    let b = range(-0.5, 2.5);
    assert_eq!(a.intersect(b), Some(range(-0.5, 2.0)));
    assert_eq!(b.intersect(a), Some(range(-0.5, 2.0)));
    assert_eq!(a.intersect(a), Some(a));
    assert_eq!(range(0.0, 1.0).intersect(range(1.0, 2.0)), Some(range(1.0, 1.0)));
    assert_eq!(range(0.0, 1.0).intersect(range(1.5, 2.0)), None);
    let c = a.intersect(b).expect("they overlap");
    for &v in [-0.5f32, 0.0, 1.0, 2.0].iter() {
        assert!(a.contains(bits(v)) && b.contains(bits(v)));
        assert!(c.contains(bits(v)));
    }
}

#[test]
fn union_is_the_hull() {
    let a = range(-1.0, 2.0);
    let b = range(-0.5, 2.5);
    assert_eq!(a.union(b), range(-1.0, 2.5));
    assert_eq!(b.union(a), range(-1.0, 2.5));
    assert_eq!(a.union(a), a);
    assert_eq!(range(0.0, 1.0).union(range(3.0, 4.0)), range(0.0, 4.0));
}

#[test]
fn negation_swaps_the_bounds() {
    assert_eq!(range(-1.0, 2.0).negate(), range(-2.0, 1.0));
    assert_eq!(range(1.0, 2.0).negate().negate(), range(1.0, 2.0));
    let z = range(0.0, 0.0).negate();
    assert_eq!(z.min, bits(-0.0));
    assert_eq!(z, range(0.0, 0.0));
}

#[test]
fn subtraction_is_addition_of_the_negation() {
    let pairs = [
        (range(-1.0, 2.0), range(-0.5, 2.5)),
        (range(1.0, 1.0), range(-3.0, 0.25)),
        (range(-7.5, -2.0), range(1.0e-3, 1.0e3)),
    ];
    for &(a, b) in pairs.iter() {
        assert_eq!(minus(a, b), plus(a, b.negate()));
    }
    assert_eq!(minus(range(-1.0, 2.0), range(-0.5, 2.5)), range(-3.5, 2.5));
}

#[test]
fn equality_is_numeric() {
    assert_eq!(
        RealInterval { min: bits(-0.0), max: bits(1.0) },
        RealInterval { min: bits(0.0), max: bits(1.0) }
    );
    assert_ne!(range(0.0, 1.0), range(0.0, 2.0));
    let n = RealInterval { min: bits(f32::NAN), max: bits(f32::NAN) };
    assert_ne!(n, n);
}

#[test]
fn default_is_the_point_zero() {
    let d = RealInterval::default();
    assert_eq!(d, range(0.0, 0.0));
    assert_eq!(d.min, 0);
    assert_eq!(d.max, 0);
}

#[test]
fn round_goes_to_the_nearest_whole_number() {
    assert_eq!(fround(bits(2.4)), bits(2.0));
    assert_eq!(fround(bits(2.6)), bits(3.0));
    assert_eq!(fround(bits(0.49999997)), bits(0.0));
    assert_eq!(fround(bits(-0.3)), bits(-0.0));
    assert_eq!(fround(bits(0.7)), bits(1.0));
    assert_eq!(fround(bits(-0.7)), bits(-1.0));
    assert_eq!(fround(bits(1.9999999)), bits(2.0));
    assert_eq!(fround(bits(8388607.5)), bits(8388608.0));
    assert_eq!(fround(bits(16777216.0)), bits(16777216.0));
    assert_eq!(fround(bits(f32::INFINITY)), bits(f32::INFINITY));
    assert_eq!(fround(bits(f32::MAX)), bits(f32::MAX));
    assert!(is_nan(fround(bits(f32::NAN))));
}

#[test]
fn round_takes_halves_away_from_zero() {
    assert_eq!(fround(bits(0.5)), bits(1.0));
    assert_eq!(fround(bits(-0.5)), bits(-1.0));
    assert_eq!(fround(bits(1.5)), bits(2.0));
    assert_eq!(fround(bits(2.5)), bits(3.0));
    assert_eq!(fround(bits(-2.5)), bits(-3.0));
    assert_eq!(fround(bits(3.5)), bits(4.0));
    assert_eq!(fround(bits(4194303.5)), bits(4194304.0));
}

#[test]
fn round_agrees_with_the_hardware_on_a_sweep() {
    let mut pattern: u32 = 0;
    loop {
        let x = num(pattern);
        if !x.is_nan() {
            assert_eq!(fround(pattern), bits(x.round()), "{x}");
        }
        match pattern.checked_add(65_521) {
            Some(next) => pattern = next,
            None => break,
        }
    }
    for &x in samples().iter() {
        if !x.is_nan() {
            assert_eq!(fround(bits(x)), bits(x.round()), "{x}");
        }
    }
}

#[test]
fn round_of_a_range_rounds_both_bounds() {
    assert_eq!(range(-1.5, 2.4).round(), range(-2.0, 2.0));
    assert_eq!(range(0.2, 0.4).round(), range(0.0, 0.0));
    assert_eq!(range(-0.5, 0.5).round(), range(-1.0, 1.0));
    assert_eq!(range(10.0, 1.0e20).round(), range(10.0, 1.0e20));
}

#[test]
fn order_agrees_with_the_hardware_on_a_sweep() {
    let mut a: u32 = 3;
    for _ in 0..2000 {
        a = a.wrapping_mul(1_664_525).wrapping_add(1_013_904_223);
        let mut b: u32 = a ^ 0x5bd1_e995;
        for _ in 0..20 {
            b = b.wrapping_mul(22_695_477).wrapping_add(1);
            let (x, y) = (num(a), num(b));
            assert_eq!(le(a, b), x <= y);
            assert_eq!(lt(a, b), x < y);
            assert_eq!(same(a, b), x == y);
            assert_eq!(fabs(a), bits(x.abs()));
            assert_eq!(fneg(a), bits(-x));
        }
    }
}

#[test]
fn results_keep_min_at_most_max() {
    let ranges = [
        range(-3.0, 2.0),
        range(-1.0, -0.25),
        range(0.0, 0.0),
        range(0.5, 7.75),
        range(-1.0e-3, 1.0e30),
        range(f32::NEG_INFINITY, f32::INFINITY),
    ];
    let ordered = |r: RealInterval| num(r.min) <= num(r.max);
    for &a in ranges.iter() {
        assert!(ordered(a.abs()));
        assert!(ordered(a.negate()));
        assert!(ordered(a.round()));
        assert!(ordered(a.minf(bits(0.5))));
        assert!(ordered(a.maxf(bits(0.5))));
        assert!(ordered(a.minf(bits(f32::NAN))));
        assert!(ordered(powi(a, 2)));
        assert!(ordered(powi(a, 3)));
        assert!(ordered(times_scalar(a, -2.5)));
        for &b in ranges.iter() {
            assert!(ordered(a.min(b)));
            assert!(ordered(a.max(b)));
            assert!(ordered(a.union(b)));
            if let Some(c) = a.intersect(b) {
                assert!(ordered(c));
            }
        }
    }
    for &a in [range(1.0, 2.0), range(-3.0, 2.0), range(-8.0, -0.5)].iter() {
        for n in [-5, -1, 0, 1, 9] {
            assert!(ordered(a.mul_pow2(n).expect("in range")));
        }
    }
}

#[test]
fn mul_pow2_moves_zero_like_any_pattern() {
    let z = RealInterval { min: bits(0.0), max: bits(-0.0) };
    let r = z.mul_pow2(1).expect("the exponent field has room");
    assert_eq!(num(r.min), f32::MIN_POSITIVE);
    assert_eq!(num(r.max), -f32::MIN_POSITIVE);
    let n = range(1.0, 1.5).mul_pow2(128).expect("the exponent field has room");
    assert_eq!(num(n.min), f32::INFINITY);
    assert!(num(n.max).is_nan());
}
