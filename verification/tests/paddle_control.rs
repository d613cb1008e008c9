use breakout_core::game::GameState;
use breakout_core::paddle::{PaddleSystem, PADDLE_MAX_X, PADDLE_MIN_X};
use breakout_core::vec2::Vec2;

#[test]
fn pointer_is_clamped_into_reachable_band() {
    let mut s = GameState::on_start(11);
    let mut ps = PaddleSystem::new();
    ps.run(&mut s, Some(5000), 16);
    assert_eq!(ps.target_x, PADDLE_MAX_X);
    ps.run(&mut s, Some(-250), 16);
    assert_eq!(ps.target_x, PADDLE_MIN_X);
    ps.run(&mut s, Some(640), 16);
    assert_eq!(ps.target_x, 640);
}

#[test]
fn absent_pointer_latches_last_target() {
    // The target was set to 640; five ticks without input keep steering
    // the paddle toward 640 at the capped, proportional rate, without a
    // jump past it.
    let mut s = GameState::on_start(3);
    s.entities[0].transform = Vec2 { x: 200, y: 16 };
    let mut ps = PaddleSystem::new();
    ps.run(&mut s, Some(640), 100);
    assert_eq!(ps.target_x, 640);
    let mut last = s.entities[0].transform.x;
    assert!(last > 200);
    for _ in 0..5 {
        ps.run(&mut s, None, 100);
        assert_eq!(ps.target_x, 640);
        let x = s.entities[0].transform.x;
        // Still approaching, never overshooting, never jumping more than
        // the capped velocity allows in 100 milliseconds.
        assert!(x >= last);
        assert!(x <= 640);
        assert!(x - last <= 72);
        last = x;
    }
}

#[test]
fn paddle_stays_inside_band_for_one_short_tick() {
    let mut s = GameState::on_start(3);
    s.entities[0].transform = Vec2 { x: PADDLE_MAX_X, y: 16 };
    let mut ps = PaddleSystem::new();
    // Steering hard toward the left bound from the right bound.
    ps.run(&mut s, Some(-10_000), 166);
    assert_eq!(ps.target_x, PADDLE_MIN_X);
    let x = s.entities[0].transform.x;
    assert!(PADDLE_MIN_X <= x && x <= PADDLE_MAX_X);
}

#[test]
fn paddle_moves_toward_target_both_ways() {
    let mut s = GameState::on_start(3);
    s.entities[0].transform = Vec2 { x: 640, y: 16 };
    let mut ps = PaddleSystem::new();
    ps.run(&mut s, Some(700), 100);
    let right = s.entities[0].transform.x;
    assert!(640 < right && right <= 700);
    ps.run(&mut s, Some(100), 100);
    assert!(s.entities[0].transform.x < right);
}
