use breakout_core::ball::{deflect, deflection_limit, respond_to_contact, scale_velocity};
use breakout_core::vec2::Vec2;

#[test]
fn reflection_flips_normal_component() {
    let v = Vec2 { x: 3, y: 4 };
    let n = Vec2 { x: 1, y: 0 };
    let r = v.reflect(&n);
    assert_eq!(r, Vec2 { x: -3, y: 4 });
    assert_eq!(r.dot(&n), -v.dot(&n));
    assert_eq!(r.norm_sq(), v.norm_sq());
}

#[test]
fn reflection_vertical_normal() {
    let v = Vec2 { x: 7, y: -2 };
    let n = Vec2 { x: 0, y: -1 };
    let r = v.reflect(&n);
    assert_eq!(r, Vec2 { x: 7, y: 2 });
    assert_eq!(r.norm_sq(), v.norm_sq());
}

#[test]
fn receding_contact_on_right_wall_is_rejected() {
    // A ball moving right that is handed the inward wall normal (-1, 0)
    // has no positive component along it: the velocity must not change.
    let v = Vec2 { x: 60, y: 0 };
    let n = Vec2 { x: -1, y: 0 };
    let w = respond_to_contact(&v, &n, 0);
    assert_eq!(w, v);
}

#[test]
fn paddle_bounce_reflects_exactly() {
    // A ball falling onto the paddle: the outward normal from the ball's
    // surface at the contact points down, so the approach is positive and
    // the reflection sends the ball straight up.
    let v = Vec2 { x: 0, y: -60 };
    let n = Vec2 { x: 0, y: -1 };
    let w = respond_to_contact(&v, &n, 0);
    assert_eq!(w, Vec2 { x: 0, y: 60 });
}

#[test]
fn receding_contact_generic() {
    let v = Vec2 { x: 10, y: -5 };
    let n = Vec2 { x: 0, y: 1 };
    let w = respond_to_contact(&v, &n, 7);
    assert_eq!(w, v);
}

#[test]
fn deflect_zero_shift_is_identity() {
    let v = Vec2 { x: 30, y: -40 };
    let n = Vec2 { x: 0, y: -1 };
    let w = deflect(&v, &n, 0);
    assert_eq!(w, v);
}

#[test]
fn deflect_shifts_tangential_component() {
    // Velocity straight up away from the surface with normal (0, -1):
    // a shift of 30 moves 30 units of speed into the tangential axis and
    // leaves the rest on the normal axis, still pointing away.
    let v = Vec2 { x: 0, y: 60 };
    let n = Vec2 { x: 0, y: -1 };
    let w = deflect(&v, &n, 30);
    assert_eq!(w, Vec2 { x: 30, y: 51 });
    assert!(w.norm_sq() <= v.norm_sq());
}

#[test]
fn deflect_never_turns_into_surface() {
    let v = Vec2 { x: 12, y: 60 };
    let n = Vec2 { x: 0, y: -1 };
    for j in [-60i64, -13, -1, 0, 1, 13, 60] {
        let w = deflect(&v, &n, j);
        assert!(w.dot(&n) <= 0);
        assert!(w.norm_sq() <= v.norm_sq());
    }
}

#[test]
fn deflection_limit_is_angle_bound_times_speed() {
    // Speed 60, normal component 60: the angle bound wins:
    // 259 * 60 / 1000 = 15.
    let v = Vec2 { x: 0, y: 60 };
    let n = Vec2 { x: 0, y: -1 };
    assert_eq!(deflection_limit(&v, &n), 15);
    // Normal component 5 is smaller than 259 * 60 / 1000: it wins.
    let grazing = Vec2 { x: 60, y: 5 };
    assert_eq!(deflection_limit(&grazing, &n), 5);
}

#[test]
fn scale_velocity_truncates_toward_zero() {
    let v = Vec2 { x: 100, y: -15 };
    let w = scale_velocity(&v, 1100);
    assert_eq!(w, Vec2 { x: 110, y: -16 });
    let u = scale_velocity(&v, 1000);
    assert_eq!(u, v);
}
