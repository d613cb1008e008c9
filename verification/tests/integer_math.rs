use breakout_core::math::{abs_i64, clamp_i64, isqrt64, scale_by_milli};
use breakout_core::vec2::Vec2;

#[test]
fn isqrt_exact_and_truncated() {
    assert_eq!(isqrt64(0), 0);
    assert_eq!(isqrt64(1), 1);
    assert_eq!(isqrt64(2), 1);
    assert_eq!(isqrt64(3600), 60);
    assert_eq!(isqrt64(3599), 59);
    assert_eq!(isqrt64(291_600), 540);
    assert_eq!(isqrt64(i64::MAX), 3_037_000_499);
}

#[test]
fn clamp_picks_nearest_bound() {
    assert_eq!(clamp_i64(5, 0, 10), 5);
    assert_eq!(clamp_i64(-5, 0, 10), 0);
    assert_eq!(clamp_i64(50, 0, 10), 10);
}

#[test]
fn milli_scaling_truncates_toward_zero() {
    assert_eq!(scale_by_milli(999, 1), 0);
    assert_eq!(scale_by_milli(-999, 1), 0);
    assert_eq!(scale_by_milli(1500, 167), 250);
    assert_eq!(scale_by_milli(-1500, 167), -250);
    assert_eq!(scale_by_milli(60, 1000), 60);
}

#[test]
fn absolute_value() {
    assert_eq!(abs_i64(-7), 7);
    assert_eq!(abs_i64(7), 7);
    assert_eq!(abs_i64(0), 0);
}

#[test]
fn dot_and_norm() {
    let a = Vec2 { x: 3, y: -4 };
    let b = Vec2 { x: 2, y: 5 };
    assert_eq!(a.dot(&b), -14);
    assert_eq!(a.norm_sq(), 25);
}
