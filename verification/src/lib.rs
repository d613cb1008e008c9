//! Collision-and-response core of a small paddle-and-ball arcade game.
//!
//! A paddle tracks pointer input, a ball bounces off the arena walls and the
//! paddle, and every contact reflects the ball's velocity, deflects it by a
//! bounded random angle, and occasionally speeds it up, never past a hard cap.
//! All quantities are integers: positions and velocities in whole units
//! (units per second for velocities), time steps in milliseconds, and scale
//! factors in thousandths.

pub mod ball;
pub mod ball_destroyer;
pub mod collision;
pub mod components;
pub mod game;
pub mod math;
pub mod paddle;
pub mod random;
pub mod vec2;
pub mod world;
