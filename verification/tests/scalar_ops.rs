//! The fixed-point scalar operations on concrete values.

use path_tracer::fixed::{
    fxabs, fxadd, fxdiv, fxmin, fxmul, fxneg, fxsin, fxsqrt, fxsub, fxtan, fxtrunc, FX_MAX, FX_MIN,
    ONE,
};
use path_tracer::utils::degrees_to_radians;

#[test]
fn addition_and_subtraction_are_exact_in_range() {
    assert_eq!(fxadd(1_500_000, 2_500_000), 4_000_000);
    assert_eq!(fxsub(1_500_000, 2_500_000), -1_000_000);
    assert_eq!(fxneg(123), -123);
    assert_eq!(fxabs(-7_000_000), 7_000_000);
    assert_eq!(fxmin(3, -4), -4);
}

#[test]
fn addition_saturates_at_the_range_limits() {
    assert_eq!(fxadd(FX_MAX, ONE), FX_MAX);
    assert_eq!(fxsub(FX_MIN, ONE), FX_MIN);
    assert_eq!(fxneg(FX_MIN), FX_MAX);
    assert_eq!(fxneg(FX_MAX), FX_MIN);
}

#[test]
fn multiplication_scales_and_truncates_toward_zero() {
    assert_eq!(fxmul(2_000_000, 3_000_000), 6_000_000);
    assert_eq!(fxmul(1, 1), 0);
    assert_eq!(fxmul(-1_500_000, 1_500_000), -2_250_000);
    assert_eq!(fxmul(-1, 999_999), 0);
    assert_eq!(fxmul(FX_MAX, FX_MAX), FX_MAX);
}

#[test]
fn division_scales_and_handles_zero_divisors() {
    assert_eq!(fxdiv(ONE, 2_000_000), 500_000);
    assert_eq!(fxdiv(-ONE, 3_000_000), -333_333);
    assert_eq!(fxdiv(5, 0), FX_MAX);
    assert_eq!(fxdiv(-5, 0), FX_MIN);
    assert_eq!(fxdiv(0, 0), 0);
    assert_eq!(fxdiv(16 * ONE, 9 * ONE), 1_777_777);
}

#[test]
fn square_root_is_exact_on_squares_and_floors_otherwise() {
    assert_eq!(fxsqrt(4_000_000), 2_000_000);
    assert_eq!(fxsqrt(ONE), ONE);
    assert_eq!(fxsqrt(0), 0);
    assert_eq!(fxsqrt(-5), 0);
    assert_eq!(fxsqrt(2_000_000), 1_414_213);
    assert_eq!(fxsqrt(900_000), 948_683);
}

#[test]
fn truncation_drops_the_fractional_part_toward_zero() {
    assert_eq!(fxtrunc(2_700_000), 2);
    assert_eq!(fxtrunc(-2_700_000), -2);
    assert_eq!(fxtrunc(999_999), 0);
}

#[test]
fn trigonometry_matches_the_series_on_known_angles() {
    assert_eq!(fxsin(0), 0);
    assert_eq!(fxtan(0), 0);
    let theta20 = degrees_to_radians(20 * ONE);
    assert_eq!(theta20, 349_065);
    let tan10 = fxtan(fxdiv(theta20, 2_000_000));
    // tan of ten degrees is about 0.176327
    assert!((tan10 - 176_327).abs() <= 10, "tan10 = {tan10}");
    let theta90 = degrees_to_radians(90 * ONE);
    let tan45 = fxtan(fxdiv(theta90, 2_000_000));
    // tan of forty-five degrees is one
    assert!((tan45 - ONE).abs() <= 10, "tan45 = {tan45}");
}
