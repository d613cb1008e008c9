use breakout_core::ball_destroyer::BallDestroyerSystem;
use breakout_core::components::Ball;
use breakout_core::game::{GameState, BALL_MAX_SPEED};
use breakout_core::paddle::PaddleSystem;
use breakout_core::vec2::Vec2;

#[test]
fn on_start_serves_one_ball_and_one_paddle() {
    let s = GameState::on_start(42);
    assert_eq!(s.entities.len(), 2);
    assert!(s.entities[0].paddle.is_some());
    assert!(s.entities[0].ball.is_none());
    assert_eq!(s.entities[0].transform, Vec2 { x: 640, y: 16 });
    assert!(s.entities[1].ball.is_some());
    assert_eq!(s.entities[1].transform, Vec2 { x: 640, y: 360 });
    let v = s.entities[1].ball.unwrap().velocity;
    assert!(v.x * v.x + v.y * v.y <= 3600);
}

#[test]
fn seeded_start_is_deterministic() {
    let a = GameState::on_start(9);
    let b = GameState::on_start(9);
    assert_eq!(a.entities[1].ball.unwrap().velocity, b.entities[1].ball.unwrap().velocity);
}

#[test]
fn motion_integrates_velocity_over_time() {
    let mut s = GameState::on_start(1);
    s.entities[1].ball = Some(Ball { velocity: Vec2 { x: 60, y: -30 } });
    let mut ps = PaddleSystem::new();
    // No contact at mid-arena: the tick only moves the ball.
    let hits = s.tick(&mut ps, None, 500);
    assert!(hits.is_empty());
    assert_eq!(s.entities[1].transform, Vec2 { x: 640 + 30, y: 360 - 15 });
    assert_eq!(s.entities[1].ball.unwrap().velocity, Vec2 { x: 60, y: -30 });
}

#[test]
fn wall_bounce_reverses_course_and_caps_speed() {
    let mut s = GameState::on_start(5);
    s.entities[1].transform = Vec2 { x: 1270, y: 360 };
    s.entities[1].ball = Some(Ball { velocity: Vec2 { x: 60, y: 0 } });
    let mut ps = PaddleSystem::new();
    let hits = s.tick(&mut ps, None, 100);
    assert_eq!(hits.len(), 1);
    assert_eq!(hits[0], s.entities[1].id);
    let v = s.entities[1].ball.unwrap().velocity;
    // Reflected off the right wall: moving left now, speed within one
    // random speed-up of the original and under the hard cap.
    assert!(v.x < 0);
    let sq = v.x * v.x + v.y * v.y;
    assert!(sq <= 3600 * 1210000 / 1000000);
    assert!(sq <= BALL_MAX_SPEED * BALL_MAX_SPEED);
}

#[test]
fn corner_contact_processes_both_normals_and_scales_once() {
    let mut s = GameState::on_start(12);
    s.entities[1].transform = Vec2 { x: 1275, y: 715 };
    s.entities[1].ball = Some(Ball { velocity: Vec2 { x: 60, y: 60 } });
    let mut ps = PaddleSystem::new();
    let hits = s.tick(&mut ps, None, 1);
    // Both simultaneous started records are processed.
    assert_eq!(hits.len(), 2);
    let v = s.entities[1].ball.unwrap().velocity;
    // Both normals applied in sequence: the ball leaves the corner.
    assert!(v.x <= 0);
    assert!(v.y <= 0);
    // The random speed-up was applied at most once: at most the squared
    // maximum factor over the incoming squared speed of 7200.
    assert!(v.x * v.x + v.y * v.y <= 7200 * 1210000 / 1000000);
}

#[test]
fn speed_never_exceeds_cap_over_many_ticks() {
    let mut s = GameState::on_start(77);
    s.entities[1].ball = Some(Ball { velocity: Vec2 { x: 380, y: 380 } });
    let mut ps = PaddleSystem::new();
    for k in 0..400u32 {
        let pointer = if k % 3 == 0 { Some(((k * 37) % 1280) as i64) } else { None };
        s.tick(&mut ps, pointer, 16);
        if let Some(b) = s.entities[1].ball {
            let sq = b.velocity.x * b.velocity.x + b.velocity.y * b.velocity.y;
            assert!(sq <= BALL_MAX_SPEED * BALL_MAX_SPEED);
        }
    }
}

#[test]
fn destroyer_removes_touching_ball() {
    let mut s = GameState::on_start(2);
    let ball_id = s.entities[1].id;
    s.initialize_ball_destroyer(Vec2 { x: 640, y: 360 }, 50, 50);
    let sys = breakout_core::world::WorldUpdateSystem;
    sys.run(&mut s);
    let destroyer = BallDestroyerSystem;
    let removed = destroyer.run(&mut s);
    assert_eq!(removed, vec![ball_id]);
    assert!(!s.entities[1].alive);
    assert!(s.entities[0].alive);
    assert!(s.entities[2].alive);
}

#[test]
fn destroyer_leaves_untouched_ball_alone() {
    let mut s = GameState::on_start(2);
    s.initialize_ball_destroyer(Vec2 { x: 100, y: 600 }, 10, 10);
    let sys = breakout_core::world::WorldUpdateSystem;
    sys.run(&mut s);
    let destroyer = BallDestroyerSystem;
    let removed = destroyer.run(&mut s);
    assert!(removed.is_empty());
    assert!(s.entities[1].alive);
}
