use vstd::prelude::*;

verus! {

use crate::game::GameEntity;
use crate::game::GameState;
use crate::game::PADDLE_MAX_VELOCITY;
use crate::game::PADDLE_VELOCITY_PER_DISTANCE;
use crate::game::POSITION_LIMIT;
use crate::game::TICK_MILLIS_LIMIT;
use crate::math::clamp_spec;
use crate::math::clamp_i64;
use crate::math::milli_scale;
use crate::math::scale_by_milli;
use crate::vec2::Vec2;

/// Leftmost position the paddle centre may be steered to.
pub const PADDLE_MIN_X: i64 = 64;

/// Rightmost position the paddle centre may be steered to.
pub const PADDLE_MAX_X: i64 = 1216;

/// A sampled pointer position is clamped into the reachable band
/// `[PADDLE_MIN_X, PADDLE_MAX_X]`: half a paddle width in from each side
/// wall.
pub open spec fn clamped_target(x: int) -> int {
    clamp_spec(x, PADDLE_MIN_X as int, PADDLE_MAX_X as int)
}

/// The paddle's velocity when it stands at `x` and steers toward `target`:
/// proportional to the distance, capped at the maximum speed, signed toward
/// the target.
pub open spec fn paddle_velocity_spec(target: int, x: int) -> int {
    clamp_spec(
        PADDLE_VELOCITY_PER_DISTANCE * (target - x),
        -PADDLE_MAX_VELOCITY as int,
        PADDLE_MAX_VELOCITY as int,
    )
}

/// The paddle's x position one step of `dt` milliseconds later.
pub open spec fn paddle_step_spec(target: int, x: int, dt: int) -> int {
    x + milli_scale(paddle_velocity_spec(target, x), dt)
}

/// Whether an entity is steered by the paddle controller.
pub open spec fn is_live_paddle(e: GameEntity) -> bool {
    e.alive && e.paddle is Some
}

/// The paddle input controller.  Its one piece of state is the latched
/// target: when pointer input is missing for a tick, the paddle keeps
/// steering toward the last known target.
pub struct PaddleSystem {
    pub target_x: i64,
}

impl PaddleSystem {
    pub fn new() -> (s: PaddleSystem)
        ensures
            s.target_x == 0,
    {
        PaddleSystem { target_x: 0 }
    }

    /// One controller tick: if a pointer sample is present, clamp it into
    /// the reachable band and store it as the target (else keep the old
    /// target); then move every live paddle toward the target at the
    /// proportional, capped velocity for `dt` milliseconds.
    pub fn run(&mut self, state: &mut GameState, pointer_x: Option<i64>, dt: i64)
        requires
            old(state).wf(),
            old(state).positions_within(POSITION_LIMIT + 50_000),
            0 <= dt <= TICK_MILLIS_LIMIT,
            -POSITION_LIMIT <= old(self).target_x <= POSITION_LIMIT,
        ensures
            -POSITION_LIMIT <= final(self).target_x <= POSITION_LIMIT,
            final(state).wf(),
            final(self).target_x == (match pointer_x {
                Some(x) => clamped_target(x as int) as i64,
                None => old(self).target_x,
            }),
            PADDLE_MIN_X <= final(self).target_x <= PADDLE_MAX_X || final(self).target_x == old(
                self,
            ).target_x,
            final(state).entities@.len() == old(state).entities@.len(),
            forall|i: int|
                0 <= i < old(state).entities@.len() ==> final(state).entities@[i] == (
                if is_live_paddle(old(state).entities@[i]) {
                    GameEntity {
                        transform: Vec2 {
                            x: paddle_step_spec(
                                final(self).target_x as int,
                                old(state).entities@[i].transform.x as int,
                                dt as int,
                            ) as i64,
                            ..old(state).entities@[i].transform
                        },
                        ..old(state).entities@[i]
                    }
                } else {
                    old(state).entities@[i]
                }),
            final(state).context == old(state).context,
            final(state).contacts@ == old(state).contacts@,
            final(state).positions_within(POSITION_LIMIT + 100_000),
    {
        if let Some(x) = pointer_x {
            self.target_x = clamp_i64(x, PADDLE_MIN_X, PADDLE_MAX_X);
        }
        let target = self.target_x;
        let n = state.entities.len();
        let mut i: usize = 0;
        while i < n
            invariant
                state.wf(),
                state.positions_within(POSITION_LIMIT + 100_000),
                n == state.entities@.len(),
                i <= n,
                -POSITION_LIMIT <= target <= POSITION_LIMIT,
                0 <= dt <= TICK_MILLIS_LIMIT,
                state.context == old(state).context,
                state.contacts@ == old(state).contacts@,
                forall|t: int|
                    0 <= t < n ==> #[trigger] state.entities@[t] == (
                    if t < i && is_live_paddle(old(state).entities@[t]) {
                        GameEntity {
                            transform: Vec2 {
                                x: paddle_step_spec(
                                    target as int,
                                    old(state).entities@[t].transform.x as int,
                                    dt as int,
                                ) as i64,
                                ..old(state).entities@[t].transform
                            },
                            ..old(state).entities@[t]
                        }
                    } else {
                        old(state).entities@[t]
                    }),
            decreases n - i,
        {
            let mut e = state.entities[i];
            if e.alive && e.paddle.is_some() {
                let paddle_x = e.transform.x;
                let diff_x = target - paddle_x;
                let vel_x = clamp_i64(
                    {
                        proof {
                            assert(-20_000_000_000 <= PADDLE_VELOCITY_PER_DISTANCE * (
                            diff_x as int) <= 20_000_000_000) by (nonlinear_arith)
                                requires
                                    -2_000_000_000 <= diff_x <= 2_000_000_000,
                            ;
                        }
                        PADDLE_VELOCITY_PER_DISTANCE * diff_x
                    },
                    -PADDLE_MAX_VELOCITY,
                    PADDLE_MAX_VELOCITY,
                );
                let step = scale_by_milli(vel_x, dt);
                proof {
                    crate::math::lemma_milli_scale_bound(
                        vel_x as int,
                        dt as int,
                        PADDLE_MAX_VELOCITY as int,
                    );
                    assert((PADDLE_MAX_VELOCITY as int * dt) / 1000 <= 43_200);
                    assert(-POSITION_LIMIT - 100_000 <= state.entities@[i as int].transform.x
                        <= POSITION_LIMIT + 100_000);
                }
                e.transform = Vec2 { x: paddle_x + step, y: e.transform.y };
                state.entities.set(i, e);
            }
            i = i + 1;
        }
    }
}

/// The one-tick clamp law: from a position and a target inside the
/// reachable band, and a tick no longer than 166 milliseconds, one paddle
/// step never leaves the band; the paddle approaches the target without
/// overshooting it.
pub proof fn lemma_paddle_stays_in_bounds(target: int, x: int, dt: int)
    requires
        PADDLE_MIN_X <= x <= PADDLE_MAX_X,
        PADDLE_MIN_X <= target <= PADDLE_MAX_X,
        0 <= dt <= 166,
    ensures
        PADDLE_MIN_X <= paddle_step_spec(target, x, dt) <= PADDLE_MAX_X,
        x <= target ==> x <= paddle_step_spec(target, x, dt) <= target,
        x >= target ==> target <= paddle_step_spec(target, x, dt) <= x,
{
    let v = paddle_velocity_spec(target, x);
    let m = milli_scale(v, dt);
    assert((x <= target ==> 0 <= m <= target - x) && (x >= target ==> target - x <= m <= 0))
        by (nonlinear_arith)
        requires
            v == clamp_spec(6 * (target - x), -720, 720),
            m == milli_scale(v, dt),
            0 <= dt <= 166,
            -1152 <= target - x <= 1152,
    ;
}


/// The paddle's x position after `ticks` consecutive steps of `dt`
/// milliseconds toward a latched target.
pub open spec fn paddle_steps_spec(target: int, x: int, dt: int, ticks: nat) -> int
    decreases ticks,
{
    if ticks == 0 {
        x
    } else {
        paddle_step_spec(target, paddle_steps_spec(target, x, dt, (ticks - 1) as nat), dt)
    }
}

/// The latched-target law over any run of consecutive ticks: with the
/// target held (as it is whenever pointer input stays absent) and ticks no
/// longer than 166 milliseconds, the paddle stays inside the reachable
/// band and approaches the target monotonically, never stepping past it.
pub proof fn lemma_paddle_approach(target: int, x: int, dt: int, ticks: nat)
    requires
        PADDLE_MIN_X <= x <= PADDLE_MAX_X,
        PADDLE_MIN_X <= target <= PADDLE_MAX_X,
        0 <= dt <= 166,
    ensures
        PADDLE_MIN_X <= paddle_steps_spec(target, x, dt, ticks) <= PADDLE_MAX_X,
        x <= target ==> x <= paddle_steps_spec(target, x, dt, ticks) <= target,
        x >= target ==> target <= paddle_steps_spec(target, x, dt, ticks) <= x,
    decreases ticks,
{
    if ticks > 0 {
        lemma_paddle_approach(target, x, dt, (ticks - 1) as nat);
        lemma_paddle_stays_in_bounds(
            target,
            paddle_steps_spec(target, x, dt, (ticks - 1) as nat),
            dt,
        );
    }
}

} // verus!
