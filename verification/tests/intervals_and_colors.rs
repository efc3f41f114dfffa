//! Parameter intervals and the pixel color encoding.

use path_tracer::fixed::{FX_MAX, FX_MIN, ONE};
use path_tracer::hittable::Interval;
use path_tracer::vec3::{write_color, Color};

#[test]
fn containment_is_closed_and_surrounding_is_strict() {
    let i = Interval::from(2, 5);
    assert!(i.contains(2) && i.contains(5) && i.contains(3));
    assert!(!i.contains(1) && !i.contains(6));
    assert!(i.surrounds(3) && !i.surrounds(2) && !i.surrounds(5));
}

#[test]
fn the_sentinel_intervals_hold_nothing_and_everything() {
    let e = Interval::empty();
    assert!(!e.contains(0) && !e.contains(FX_MAX) && !e.contains(FX_MIN));
    let u = Interval::universe();
    assert!(u.contains(0) && u.contains(FX_MAX) && u.contains(FX_MIN));
}

#[test]
fn clamping_pulls_into_the_range_and_is_idempotent() {
    let i = Interval::from(-ONE, ONE);
    assert_eq!(i.clamp(2 * ONE), ONE);
    assert_eq!(i.clamp(-2 * ONE), -ONE);
    assert_eq!(i.clamp(123), 123);
    for x in [-3 * ONE, -ONE, -1, 0, 1, ONE, 3 * ONE] {
        assert_eq!(i.clamp(i.clamp(x)), i.clamp(x));
    }
}

#[test]
fn pure_white_encodes_to_full_channels() {
    let mut out: Vec<u8> = Vec::new();
    write_color(&mut out, &Color::from(ONE, ONE, ONE), 1);
    assert_eq!(out, b"255 255 255 \n");
}

#[test]
fn pure_black_encodes_to_zero_channels() {
    let mut out: Vec<u8> = Vec::new();
    write_color(&mut out, &Color::from(0, 0, 0), 1);
    assert_eq!(out, b"0 0 0 \n");
}

#[test]
fn gamma_correction_takes_the_square_root_before_scaling() {
    // A quarter of full intensity maps through the square root to one
    // half, then to floor(256 * 0.5) = 128.
    let mut out: Vec<u8> = Vec::new();
    write_color(&mut out, &Color::from(250_000, 250_000, 250_000), 1);
    assert_eq!(out, b"128 128 128 \n");
}

#[test]
fn channel_scaling_truncates_rather_than_rounds() {
    // 0.9 maps through the square root to 0.948683, and 256 times that
    // is 242.86: truncation keeps 242.
    let mut out: Vec<u8> = Vec::new();
    write_color(&mut out, &Color::from(900_000, 0, ONE), 1);
    assert_eq!(out, b"242 0 255 \n");
}

#[test]
fn accumulated_colors_are_divided_by_the_sample_count() {
    // Four white samples accumulated and divided by four are white.
    let mut out: Vec<u8> = Vec::new();
    write_color(&mut out, &Color::from(4 * ONE, 4 * ONE, 4 * ONE), 4);
    assert_eq!(out, b"255 255 255 \n");
}

#[test]
fn negative_radiance_encodes_as_black() {
    let mut out: Vec<u8> = Vec::new();
    write_color(&mut out, &Color::from(-ONE, -1, 0), 1);
    assert_eq!(out, b"0 0 0 \n");
}
