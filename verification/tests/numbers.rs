use pathtracer::fixed::{isqrt, Scalar, LIMIT_RAW, ONE_RAW};
use pathtracer::utils::{clamp, degrees_to_radian, random_boundaries, random_number, spread_sample};

fn s(x: f64) -> Scalar {
    Scalar::from_raw((x * 65536.0).round() as i64)
}

#[test]
fn one_is_sixteen_bits_up() {
    assert_eq!(Scalar::one().raw(), 65536);
    assert_eq!(ONE_RAW, 65536);
    assert_eq!(Scalar::zero().raw(), 0);
    assert_eq!(Scalar::max_value().raw(), LIMIT_RAW);
}

#[test]
fn from_raw_brings_into_range() {
    assert_eq!(Scalar::from_raw(123).raw(), 123);
    assert_eq!(Scalar::from_raw(i64::MAX).raw(), LIMIT_RAW);
    assert_eq!(Scalar::from_raw(i64::MIN).raw(), -LIMIT_RAW);
    assert_eq!(Scalar::from_raw(LIMIT_RAW + 1).raw(), LIMIT_RAW);
}

#[test]
fn from_int_and_ratio() {
    assert_eq!(Scalar::from_int(3).raw(), 3 * 65536);
    assert_eq!(Scalar::from_int(-2).raw(), -2 * 65536);
    assert_eq!(Scalar::from_int(20000).raw(), LIMIT_RAW);
    assert_eq!(Scalar::from_int(i32::MIN).raw(), -LIMIT_RAW);
    assert_eq!(Scalar::from_ratio(1, 2).raw(), 32768);
    assert_eq!(Scalar::from_ratio(1, 1000).raw(), 65);
    assert_eq!(Scalar::from_ratio(-1, 3).raw(), -21845);
    assert_eq!(Scalar::from_ratio(1, -3).raw(), -21845);
    assert_eq!(Scalar::from_ratio(-1, -3).raw(), 21845);
    assert_eq!(Scalar::from_ratio(5, 0).raw(), LIMIT_RAW);
    assert_eq!(Scalar::from_ratio(-5, 0).raw(), -LIMIT_RAW);
    assert_eq!(Scalar::from_ratio(0, 0).raw(), 0);
}

#[test]
fn addition_and_subtraction_saturate() {
    assert_eq!(s(1.5).add(s(2.25)).raw(), s(3.75).raw());
    assert_eq!(s(1.5).sub(s(2.25)).raw(), s(-0.75).raw());
    assert_eq!(Scalar::max_value().add(Scalar::one()).raw(), LIMIT_RAW);
    assert_eq!(Scalar::max_value().neg().sub(Scalar::one()).raw(), -LIMIT_RAW);
    assert_eq!(s(2.0).neg().raw(), -131072);
}

#[test]
fn multiplication_rounds_toward_zero() {
    assert_eq!(s(-1.5).mul(s(2.5)).raw(), -245760);
    assert_eq!(Scalar::from_raw(1).mul(Scalar::from_raw(65535)).raw(), 0);
    assert_eq!(Scalar::from_raw(-1).mul(Scalar::from_raw(65535)).raw(), 0);
    assert_eq!(Scalar::from_raw(3).mul(s(0.5)).raw(), 1);
    assert_eq!(Scalar::from_raw(-3).mul(s(0.5)).raw(), -1);
    assert_eq!(s(1000.0).mul(s(1000.0)).raw(), LIMIT_RAW);
    assert_eq!(s(1000.0).mul(s(-1000.0)).raw(), -LIMIT_RAW);
}

#[test]
fn negation_commutes_with_multiplication() {
    let a = Scalar::from_raw(12345);
    let b = Scalar::from_raw(-98765);
    assert_eq!(a.neg().mul(b).raw(), -a.mul(b).raw());
    assert_eq!(a.mul(b.neg()).raw(), -a.mul(b).raw());
}

#[test]
fn division_rounds_toward_zero() {
    assert_eq!(Scalar::one().div(s(3.0)).raw(), 21845);
    assert_eq!(Scalar::one().neg().div(s(3.0)).raw(), -21845);
    assert_eq!(Scalar::one().div(s(-3.0)).raw(), -21845);
    assert_eq!(s(7.0).div(s(2.0)).raw(), s(3.5).raw());
}

#[test]
fn division_by_zero_saturates() {
    assert_eq!(Scalar::one().div(Scalar::zero()).raw(), LIMIT_RAW);
    assert_eq!(Scalar::one().neg().div(Scalar::zero()).raw(), -LIMIT_RAW);
    assert_eq!(Scalar::zero().div(Scalar::zero()).raw(), 0);
}

#[test]
fn square_root_rounds_down() {
    assert_eq!(s(2.0).sqrt().raw(), 92681);
    assert_eq!(s(0.25).sqrt().raw(), 32768);
    assert_eq!(s(4.0).sqrt().raw(), 131072);
    assert_eq!(Scalar::zero().sqrt().raw(), 0);
    assert_eq!(s(-4.0).sqrt().raw(), 0);
    assert_eq!(Scalar::max_value().sqrt().raw(), 128 * 65536);
}

#[test]
fn integer_square_root() {
    assert_eq!(isqrt(0), 0);
    assert_eq!(isqrt(1), 1);
    assert_eq!(isqrt(3), 1);
    assert_eq!(isqrt(4), 2);
    assert_eq!(isqrt(99), 9);
    assert_eq!(isqrt(100), 10);
    assert_eq!(isqrt(u128::MAX), u64::MAX);
    assert_eq!(isqrt((1u128 << 64) - 1), (1u64 << 32) - 1);
}

#[test]
fn comparisons() {
    assert!(s(1.0).lt(s(2.0)));
    assert!(!s(2.0).lt(s(2.0)));
    assert!(s(2.0).le(s(2.0)));
    assert!(s(3.0).gt(s(2.0)));
    assert!(s(2.0).ge(s(2.0)));
    assert_eq!(s(1.0).min(s(2.0)).raw(), 65536);
    assert_eq!(s(2.0).min(s(1.0)).raw(), 65536);
    assert_eq!(s(-2.5).abs().raw(), s(2.5).raw());
    assert_eq!(s(2.5).abs().raw(), s(2.5).raw());
    assert_eq!(s(1.0), Scalar::one());
}

#[test]
fn clamp_brings_into_bounds() {
    assert_eq!(clamp(s(0.5), s(0.0), s(0.999)).raw(), s(0.5).raw());
    assert_eq!(clamp(s(-0.5), s(0.0), s(0.999)).raw(), 0);
    assert_eq!(clamp(s(1.5), s(0.0), s(0.999)).raw(), s(0.999).raw());
    assert_eq!(clamp(s(0.0), s(0.0), s(0.999)).raw(), 0);
    assert_eq!(clamp(s(0.999), s(0.0), s(0.999)).raw(), s(0.999).raw());
}

#[test]
fn degrees_become_radians() {
    assert_eq!(degrees_to_radian(s(180.0)).raw(), 205887);
    assert_eq!(degrees_to_radian(s(90.0)).raw(), 102943);
    assert_eq!(degrees_to_radian(s(-45.0)).raw(), -51471);
    assert_eq!(degrees_to_radian(s(0.0)).raw(), 0);
}

#[test]
fn random_numbers_lie_in_the_unit_interval() {
    let mut smallest = i64::MAX;
    let mut largest = i64::MIN;
    for _ in 0..2000 {
        let r = random_number().raw();
        assert!(0 <= r && r < 65536);
        smallest = smallest.min(r);
        largest = largest.max(r);
    }
    assert!(smallest < largest);
}

#[test]
fn random_boundaries_stay_between_the_bounds() {
    for _ in 0..2000 {
        let r = random_boundaries(s(-1.0), s(1.0)).raw();
        assert!(-65536 <= r && r < 65536);
        let q = random_boundaries(s(2.0), s(5.0)).raw();
        assert!(2 * 65536 <= q && q < 5 * 65536);
    }
}

#[test]
fn spread_sample_is_linear() {
    assert_eq!(spread_sample(s(-1.0), s(1.0), s(0.0)).raw(), -65536);
    assert_eq!(spread_sample(s(-1.0), s(1.0), s(0.5)).raw(), 0);
    assert_eq!(spread_sample(s(-1.0), s(1.0), s(0.75)).raw(), 32768);
    assert_eq!(spread_sample(s(2.0), s(5.0), s(0.5)).raw(), s(3.5).raw());
}
