use rust_v::ordering::fast_cmp;
use rust_v::scalar::{
    approx_zero, approx_zero_ar, approx_zero_tolerance, fast_clamp, fast_clamp_ar, fast_max,
    fast_min, in_range, in_range_incl, in_range_incl_left, in_range_incl_right, is_finite,
    is_not_nan, lt_epsilon, lt_epsilon_tolerance, Scalar, BIG_EPSILON_BITS, EPSILON_BITS,
};
use std::cmp::Ordering;

fn s(x: f32) -> Scalar {
    Scalar::from_bits(x.to_bits())
}

fn f(x: Scalar) -> f32 {
    f32::from_bits(x.to_bits())
}

fn samples() -> Vec<f32> {
    vec![
        0.0,
        -0.0,
        1.0,
        -1.0,
        0.5,
        -0.5,
        1.0e-38,
        -1.0e-38,
        1.0e-45,
        -1.0e-45,
        3.4e38,
        -3.4e38,
        f32::INFINITY,
        f32::NEG_INFINITY,
        f32::NAN,
        -f32::NAN,
        f32::EPSILON,
        1.000_000_1,
        123.456,
        -123.456,
    ]
}

#[test]
fn comparisons_are_those_of_the_numbers() {
    for a in samples() {
        for b in samples() {
            assert_eq!(s(a).lt(s(b)), a < b, "{} < {}", a, b);
            assert_eq!(s(a).le(s(b)), a <= b, "{} <= {}", a, b);
            assert_eq!(s(a).gt(s(b)), a > b, "{} > {}", a, b);
            assert_eq!(s(a).ge(s(b)), a >= b, "{} >= {}", a, b);
            assert_eq!(s(a).num_eq(s(b)), a == b, "{} == {}", a, b);
        }
    }
}

#[test]
fn classes_are_those_of_the_numbers() {
    for a in samples() {
        assert_eq!(s(a).is_nan(), a.is_nan());
        assert_eq!(s(a).is_finite(), a.is_finite());
        assert_eq!(s(a).neg().to_bits(), (-a).to_bits());
        assert_eq!(s(a).abs().to_bits(), a.abs().to_bits());
    }
    assert_eq!(f(Scalar::zero()), 0.0);
    assert_eq!(f(Scalar::one()), 1.0);
    assert_eq!(f(Scalar::infinity()), f32::INFINITY);
    assert_eq!(f(Scalar::neg_infinity()), f32::NEG_INFINITY);
}

#[test]
fn tolerances_are_what_they_are_called() {
    assert_eq!(f32::from_bits(EPSILON_BITS), 10.0 * f32::EPSILON);
    assert_eq!(f32::from_bits(BIG_EPSILON_BITS), 1e-4);
}

#[test]
fn min_max_clamp_as_written() {
    for a in samples() {
        for b in samples() {
            let min = if b < a { b } else { a };
            let max = if a < b { b } else { a };
            assert_eq!(fast_min(s(a), s(b)).to_bits(), min.to_bits());
            assert_eq!(fast_max(s(a), s(b)).to_bits(), max.to_bits());
        }
    }
    assert_eq!(f(fast_clamp(s(5.0), s(0.0), s(1.0))), 1.0);
    assert_eq!(f(fast_clamp(s(-5.0), s(0.0), s(1.0))), 0.0);
    assert_eq!(f(fast_clamp(s(0.25), s(0.0), s(1.0))), 0.25);
    let mut ar = vec![s(-2.0), s(0.5), s(7.0), s(1.0)];
    fast_clamp_ar(&mut ar, s(0.0), s(1.0));
    let got: Vec<f32> = ar.iter().map(|x| f(*x)).collect();
    assert_eq!(got, vec![0.0, 0.5, 1.0, 1.0]);
}

#[test]
fn ranges() {
    assert!(in_range(s(0.5), s(0.0), s(1.0)));
    assert!(!in_range(s(0.0), s(0.0), s(1.0)));
    assert!(!in_range(s(1.0), s(0.0), s(1.0)));
    assert!(in_range_incl(s(0.0), s(0.0), s(1.0)));
    assert!(in_range_incl(s(1.0), s(0.0), s(1.0)));
    assert!(!in_range_incl(s(1.5), s(0.0), s(1.0)));
    assert!(in_range_incl_left(s(0.0), s(0.0), s(1.0)));
    assert!(!in_range_incl_left(s(1.0), s(0.0), s(1.0)));
    assert!(!in_range_incl_right(s(0.0), s(0.0), s(1.0)));
    assert!(in_range_incl_right(s(1.0), s(0.0), s(1.0)));
    assert!(!in_range_incl(s(f32::NAN), s(0.0), s(1.0)));
    assert!(in_range_incl(s(-0.0), s(0.0), s(1.0)));
}

#[test]
fn zero_tests() {
    assert!(approx_zero(s(0.0)));
    assert!(approx_zero(s(-0.0)));
    assert!(approx_zero(s(10.0 * f32::EPSILON)));
    assert!(approx_zero(s(-10.0 * f32::EPSILON)));
    assert!(!approx_zero(s(11.0 * f32::EPSILON)));
    assert!(!approx_zero(s(f32::NAN)));
    assert!(approx_zero_tolerance(s(-0.5), s(0.5)));
    assert!(!approx_zero_tolerance(s(-0.6), s(0.5)));
    assert!(approx_zero_ar(&[s(0.0), s(1e-7), s(-1e-7)]));
    assert!(!approx_zero_ar(&[s(0.0), s(1e-3)]));
    assert!(approx_zero_ar(&[]));
    assert!(lt_epsilon(s(1e-7)));
    assert!(lt_epsilon(s(-3.0)));
    assert!(!lt_epsilon(s(10.0 * f32::EPSILON)));
    assert!(lt_epsilon_tolerance(s(0.1), s(0.2)));
    assert!(!lt_epsilon_tolerance(s(0.2), s(0.2)));
}

#[test]
fn slices() {
    assert!(is_finite(&[s(1.0), s(-2.0)]));
    assert!(!is_finite(&[s(1.0), s(f32::INFINITY)]));
    assert!(!is_finite(&[s(f32::NAN)]));
    assert!(is_not_nan(&[s(1.0), s(f32::INFINITY)]));
    assert!(!is_not_nan(&[s(1.0), s(f32::NAN)]));
}

#[test]
fn three_way_comparison() {
    assert_eq!(fast_cmp(s(1.0), s(2.0)), Ordering::Less);
    assert_eq!(fast_cmp(s(2.0), s(1.0)), Ordering::Greater);
    assert_eq!(fast_cmp(s(2.0), s(2.0)), Ordering::Equal);
    assert_eq!(fast_cmp(s(0.0), s(-0.0)), Ordering::Equal);
    assert_eq!(fast_cmp(s(f32::NAN), s(1.0)), Ordering::Equal);
    assert_eq!(fast_cmp(s(1.0), s(f32::NAN)), Ordering::Equal);
}
