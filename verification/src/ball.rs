use vstd::prelude::*;

verus! {

use crate::components::Ball;
use crate::components::ContactEventData;
use crate::game::BALL_MAX_DEFLECTION_MILLI;
use crate::game::BALL_MAX_SPEED;
use crate::game::BALL_MIN_SCALE_MILLI;
use crate::game::BALL_MAX_SCALE_MILLI;
use crate::game::GameEntity;
use crate::game::GameState;
use crate::game::POSITION_LIMIT;
use crate::game::TICK_MILLIS_LIMIT;
use crate::game::contact_records_wf;
use crate::game::entity_wf;
use crate::random::rand_in_range;
use crate::math::abs_i64;
use crate::math::abs_spec;
use crate::math::clamp_spec;
use crate::math::clamp_i64;
use crate::math::is_isqrt;
use crate::math::isqrt_spec;
use crate::math::isqrt64;
use crate::math::milli_scale;
use crate::vec2::Vec2;
use crate::vec2::dot_spec;
use crate::vec2::is_axis_unit;
use crate::vec2::norm_sq_spec;
use crate::vec2::reflect_x_spec;
use crate::vec2::reflect_y_spec;

/// Largest squared speed the response functions accept; far above any speed
/// the game reaches, low enough that squares and products fit.
pub const SPEED_SQ_LIMIT: i64 = 2_000_000_000_000;

/// The squared speed is within `SPEED_SQ_LIMIT`; each component is then at
/// most 1,500,000 in magnitude.
pub open spec fn vel_in_range(v: Vec2) -> bool {
    norm_sq_spec(v) <= SPEED_SQ_LIMIT
}

/// The reflection of `v` about the unit normal `n`, as a vector.
pub open spec fn reflect_vec_spec(v: Vec2, n: Vec2) -> Vec2 {
    Vec2 { x: reflect_x_spec(v, n) as i64, y: reflect_y_spec(v, n) as i64 }
}

/// The tangential component of `v`: its dot product with the tangent
/// `(-n.y, n.x)` of the unit normal `n`.
pub open spec fn tangential_of(v: Vec2, n: Vec2) -> int {
    v.y * n.x - v.x * n.y
}

/// The tangential component after deflecting by `j`, clamped so that it
/// never exceeds the speed.
pub open spec fn deflected_tangential(v: Vec2, n: Vec2, j: int) -> int {
    clamp_spec(
        tangential_of(v, n) + j,
        -isqrt_spec(norm_sq_spec(v)),
        isqrt_spec(norm_sq_spec(v)),
    )
}

/// The magnitude of the normal component after deflection: what is left of
/// the speed once the deflected tangential component is taken out.
pub open spec fn deflected_normal_mag(v: Vec2, n: Vec2, j: int) -> int {
    isqrt_spec(
        norm_sq_spec(v) - deflected_tangential(v, n, j) * deflected_tangential(v, n, j),
    )
}

/// The signed normal component after deflection: the deflection never flips
/// the side of the surface the velocity points to.
pub open spec fn deflected_normal(v: Vec2, n: Vec2, j: int) -> int {
    if dot_spec(v, n) <= 0 {
        -deflected_normal_mag(v, n, j)
    } else {
        deflected_normal_mag(v, n, j)
    }
}

/// X component of the deflected velocity, rebuilt from its tangential and
/// normal components.
pub open spec fn deflect_x_spec(v: Vec2, n: Vec2, j: int) -> int {
    deflected_tangential(v, n, j) * -n.y + deflected_normal(v, n, j) * n.x
}

/// See `deflect_x_spec`.
pub open spec fn deflect_y_spec(v: Vec2, n: Vec2, j: int) -> int {
    deflected_tangential(v, n, j) * n.x + deflected_normal(v, n, j) * n.y
}

/// How far the random deflection may shift the tangential component: at
/// most the magnitude of the normal component (a deflection can graze the
/// surface but not turn back into it), and at most the fixed angle bound
/// as a fraction of the speed.
pub open spec fn deflection_limit_spec(v: Vec2, n: Vec2) -> int {
    let b = abs_spec(dot_spec(v, n));
    let cap = (BALL_MAX_DEFLECTION_MILLI * isqrt_spec(norm_sq_spec(v))) / 1000;
    if b <= cap {
        b
    } else {
        cap
    }
}

/// A contact record leads to a response only if the velocity has a positive
/// component along the outward normal: the ball is actually moving into the
/// counterpart.
pub open spec fn response_applies(v: Vec2, n: Vec2) -> bool {
    dot_spec(v, n) > 0
}

/// Bound on the random deflection of a reflected velocity.
pub fn deflection_limit(v: &Vec2, n: &Vec2) -> (r: i64)
    requires
        vel_in_range(*v),
        is_axis_unit(*n),
    ensures
        r == deflection_limit_spec(*v, *n),
        0 <= r <= 2_000_000,
{
    proof {
        lemma_vel_products(*v, *n);
    }
    let b = abs_i64(v.dot(n));
    let s2 = v.norm_sq();
    let sp = isqrt64(s2);
    proof {
        assert(sp * sp <= s2 && s2 <= 2_000_000_000_000 ==> sp <= 1_500_000) by (nonlinear_arith);
        assert(0 <= BALL_MAX_DEFLECTION_MILLI * (sp as int) <= 400_000_000_000) by (nonlinear_arith)
            requires
                0 <= sp <= 1_500_000,
        ;
    }
    let cap = ((BALL_MAX_DEFLECTION_MILLI as u64 * (sp as u64)) / 1000) as i64;
    proof {
        assert(cap == (BALL_MAX_DEFLECTION_MILLI * (sp as int)) / 1000);
        assert(cap <= 400_000_000) by (nonlinear_arith)
            requires
                cap == (BALL_MAX_DEFLECTION_MILLI * (sp as int)) / 1000,
                0 <= BALL_MAX_DEFLECTION_MILLI * (sp as int) <= 400_000_000_000,
        ;
    }
    if b <= cap {
        b
    } else {
        cap
    }
}

/// Bounds on the products a response computes, for a velocity in range and
/// an axis-aligned unit normal.
proof fn lemma_vel_products(v: Vec2, n: Vec2)
    requires
        vel_in_range(v),
        is_axis_unit(n),
    ensures
        -1_500_000 <= v.x <= 1_500_000,
        -1_500_000 <= v.y <= 1_500_000,
        crate::vec2::in_coord_range(v),
        -1_500_000 <= dot_spec(v, n) <= 1_500_000,
        -1_500_000 <= tangential_of(v, n) <= 1_500_000,
        0 <= norm_sq_spec(v) <= 2_000_000_000_000,
{
    assert((-1_500_000 <= v.x <= 1_500_000) && (-1_500_000 <= v.y <= 1_500_000) && (-1_500_000
        <= dot_spec(v, n) <= 1_500_000) && (-1_500_000 <= tangential_of(v, n) <= 1_500_000) && (0
        <= norm_sq_spec(v) <= 2_000_000_000_000)) by (nonlinear_arith)
        requires
            vel_in_range(v),
            is_axis_unit(n),
            norm_sq_spec(v) == v.x * v.x + v.y * v.y,
    ;
}

/// Rotates the velocity `v` toward or away from the surface with unit
/// normal `n` by shifting its tangential component by `j` and giving the
/// normal component the remaining speed, on the same side of the surface as
/// before.  The speed never grows; a zero shift changes nothing.
pub fn deflect(v: &Vec2, n: &Vec2, j: i64) -> (w: Vec2)
    requires
        vel_in_range(*v),
        is_axis_unit(*n),
        -2_000_000 <= j <= 2_000_000,
    ensures
        w.x == deflect_x_spec(*v, *n, j as int),
        w.y == deflect_y_spec(*v, *n, j as int),
        norm_sq_spec(w) <= norm_sq_spec(*v),
        dot_spec(*v, *n) <= 0 ==> dot_spec(w, *n) <= 0,
        -3_000_000 <= w.x <= 3_000_000,
        -3_000_000 <= w.y <= 3_000_000,
        vel_in_range(w),
        j == 0 ==> w == *v,
{
    proof {
        lemma_vel_products(*v, *n);
    }
    let a = {
        proof {
            assert(-1_500_000 <= (v.y as int) * (n.x as int) <= 1_500_000 && -1_500_000 <= (
            v.x as int) * (n.y as int) <= 1_500_000) by (nonlinear_arith)
                requires
                    -1_500_000 <= v.x <= 1_500_000,
                    -1_500_000 <= v.y <= 1_500_000,
                    is_axis_unit(*n),
            ;
        }
        v.y * n.x - v.x * n.y
    };
    let b = v.dot(n);
    let s2 = v.norm_sq();
    let r = isqrt64(s2);
    proof {
        assert(r * r <= s2 && s2 <= 2_000_000_000_000 ==> r <= 1_500_000) by (nonlinear_arith);
        assert(a * a + b * b == s2) by (nonlinear_arith)
            requires
                a == tangential_of(*v, *n),
                b == dot_spec(*v, *n),
                s2 == norm_sq_spec(*v),
                is_axis_unit(*n),
        ;
        assert(a * a <= s2) by (nonlinear_arith)
            requires
                a * a + b * b == s2,
        ;
        assert(-r <= a <= r) by (nonlinear_arith)
            requires
                a * a <= s2,
                is_isqrt(s2 as int, r as int),
        ;
    }
    let at = clamp_i64(a + j, -r, r);
    proof {
        assert(at * at <= s2) by (nonlinear_arith)
            requires
                -r <= at <= r,
                0 <= r,
                r * r <= s2,
        ;
        assert(at * at >= 0) by (nonlinear_arith);
    }
    let rem = s2 - at * at;
    let bm = isqrt64(rem);
    proof {
        assert(bm * bm <= rem && rem <= 2_000_000_000_000 ==> bm <= 1_500_000)
            by (nonlinear_arith);
    }
    let bs = if b <= 0 {
        -bm
    } else {
        bm
    };
    let w = Vec2 {
        x: {
            proof {
                lemma_unit_mul_bound(at as int, n.y as int, 1_500_000);
                lemma_unit_mul_bound(bs as int, n.x as int, 1_500_000);
            }
            at * (-n.y) + bs * n.x
        },
        y: {
            proof {
                lemma_unit_mul_bound(at as int, n.x as int, 1_500_000);
                lemma_unit_mul_bound(bs as int, n.y as int, 1_500_000);
            }
            at * n.x + bs * n.y
        },
    };
    proof {
        assert(norm_sq_spec(w) == at * at + bs * bs) by (nonlinear_arith)
            requires
                is_axis_unit(*n),
                w.x == at * (-n.y) + bs * n.x,
                w.y == at * n.x + bs * n.y,
        ;
        assert(bs * bs <= rem) by (nonlinear_arith)
            requires
                is_isqrt(rem as int, bm as int),
                bs == bm || bs == -bm,
        ;
        assert(dot_spec(w, *n) == bs) by (nonlinear_arith)
            requires
                is_axis_unit(*n),
                w.x == at * (-n.y) + bs * n.x,
                w.y == at * n.x + bs * n.y,
        ;
        if j == 0 {
            assert(at == a);
            assert(bm * bm <= b * b && b * b < (bm + 1) * (bm + 1) ==> bm == abs_spec(b as int))
                by (nonlinear_arith)
                requires
                    bm >= 0,
            ;
            assert(w == *v) by (nonlinear_arith)
                requires
                    is_axis_unit(*n),
                    w.x == a * (-n.y) + bs * n.x,
                    w.y == a * n.x + bs * n.y,
                    a == tangential_of(*v, *n),
                    bs == dot_spec(*v, *n),
            ;
        }
    }
    w
}

/// The response to one contact record: if the velocity has no positive
/// component along the outward normal `n`, the contact is receding and the
/// velocity is returned unchanged; otherwise the velocity is reflected
/// about `n` and then deflected by the tangential shift `j`.  The speed
/// never grows, and an accepted response leaves the velocity moving away
/// from the surface.
pub fn respond_to_contact(v: &Vec2, n: &Vec2, j: i64) -> (w: Vec2)
    requires
        vel_in_range(*v),
        is_axis_unit(*n),
        -2_000_000 <= j <= 2_000_000,
    ensures
        !response_applies(*v, *n) ==> w == *v,
        response_applies(*v, *n) ==> w.x == deflect_x_spec(
            reflect_vec_spec(*v, *n),
            *n,
            j as int,
        ) && w.y == deflect_y_spec(reflect_vec_spec(*v, *n), *n, j as int),
        response_applies(*v, *n) ==> dot_spec(w, *n) <= 0,
        norm_sq_spec(w) <= norm_sq_spec(*v),
        vel_in_range(w),
{
    proof {
        lemma_vel_products(*v, *n);
    }
    let d = v.dot(n);
    if d <= 0 {
        *v
    } else {
        let v2 = v.reflect(n);
        proof {
            assert(v2 == reflect_vec_spec(*v, *n));
        }
        deflect(&v2, n, j)
    }
}

/// Scales the velocity by `f` thousandths, each component truncated toward
/// zero: the squared speed grows by at most the squared factor.
pub fn scale_velocity(v: &Vec2, f: i64) -> (w: Vec2)
    requires
        vel_in_range(*v),
        1000 <= f <= 1100,
    ensures
        w.x == milli_scale(v.x as int, f as int),
        w.y == milli_scale(v.y as int, f as int),
        1_000_000 * norm_sq_spec(w) <= (f * f) * norm_sq_spec(*v),
        -1_650_000 <= w.x <= 1_650_000,
        -1_650_000 <= w.y <= 1_650_000,
{
    proof {
        assert(-1_500_000 <= v.x <= 1_500_000 && -1_500_000 <= v.y <= 1_500_000)
            by (nonlinear_arith)
            requires
                norm_sq_spec(*v) <= SPEED_SQ_LIMIT,
                norm_sq_spec(*v) == v.x * v.x + v.y * v.y,
        ;
    }
    let wx = crate::math::scale_by_milli(v.x, f);
    let wy = crate::math::scale_by_milli(v.y, f);
    proof {
        lemma_milli_scale_sq(v.x as int, f as int);
        lemma_milli_scale_sq(v.y as int, f as int);
        assert(1_000_000 * ((wx * wx) + (wy * wy)) <= (f * f) * (v.x * v.x + v.y * v.y))
            by (nonlinear_arith)
            requires
                1_000_000 * (wx * wx) <= (f * f) * (v.x * v.x),
                1_000_000 * (wy * wy) <= (f * f) * (v.y * v.y),
        ;
        assert(-1_650_000 <= wx <= 1_650_000 && -1_650_000 <= wy <= 1_650_000)
            by (nonlinear_arith)
            requires
                wx == milli_scale(v.x as int, f as int),
                wy == milli_scale(v.y as int, f as int),
                -1_500_000 <= v.x <= 1_500_000,
                -1_500_000 <= v.y <= 1_500_000,
                1000 <= f <= 1100,
        ;
    }
    Vec2 { x: wx, y: wy }
}

/// The squared magnitude of a milli-scaling is bounded by the squared
/// factor.
proof fn lemma_milli_scale_sq(a: int, f: int) by (nonlinear_arith)
    requires
        0 <= f,
    ensures
        1_000_000 * (milli_scale(a, f) * milli_scale(a, f)) <= (f * f) * (a * a),
{
}

/// The motion integrator: advances every live ball by velocity times the
/// time step.
pub struct BallMovementSystem;

/// An entity one motion step later: `position += velocity * dt / 1000`,
/// each axis truncated toward zero; entities without a live ball stay.
pub open spec fn moved_ball_entity(e: GameEntity, dt: int) -> GameEntity {
    if e.alive && e.ball is Some {
        GameEntity {
            transform: Vec2 {
                x: (e.transform.x + milli_scale(e.ball->Some_0.velocity.x as int, dt)) as i64,
                y: (e.transform.y + milli_scale(e.ball->Some_0.velocity.y as int, dt)) as i64,
            },
            ..e
        }
    } else {
        e
    }
}

impl BallMovementSystem {
    /// One integrator tick over every entity.  Pure motion: no entity
    /// gains or loses anything but its position, and nothing else in the
    /// state changes.
    pub fn run(&self, state: &mut GameState, dt: i64)
        requires
            old(state).wf(),
            old(state).positions_within(POSITION_LIMIT + 100_000),
            0 <= dt <= TICK_MILLIS_LIMIT,
        ensures
            final(state).wf(),
            final(state).entities@.len() == old(state).entities@.len(),
            forall|i: int|
                0 <= i < old(state).entities@.len() ==> final(state).entities@[i]
                    == moved_ball_entity(old(state).entities@[i], dt as int),
            final(state).context == old(state).context,
            final(state).contacts@ == old(state).contacts@,
            final(state).positions_within(POSITION_LIMIT + 150_000),
    {
        let n = state.entities.len();
        let mut i: usize = 0;
        while i < n
            invariant
                state.wf(),
                old(state).positions_within(POSITION_LIMIT + 100_000),
                state.positions_within(POSITION_LIMIT + 150_000),
                n == state.entities@.len(),
                n == old(state).entities@.len(),
                i <= n,
                0 <= dt <= TICK_MILLIS_LIMIT,
                state.context == old(state).context,
                state.contacts@ == old(state).contacts@,
                forall|t: int|
                    0 <= t < n ==> #[trigger] state.entities@[t] == (
                    if t < i {
                        moved_ball_entity(old(state).entities@[t], dt as int)
                    } else {
                        old(state).entities@[t]
                    }),
            decreases n - i,
        {
            let mut e = state.entities[i];
            if e.alive && e.ball.is_some() {
                let b = e.ball.unwrap();
                proof {
                    assert(entity_wf(
                        state.entities@[i as int],
                        state.context.world.proxies@.len() as int,
                    ));
                    assert(-540 <= b.velocity.x <= 540 && -540 <= b.velocity.y <= 540)
                        by (nonlinear_arith)
                        requires
                            norm_sq_spec(b.velocity) <= 291_600,
                            norm_sq_spec(b.velocity) == b.velocity.x * b.velocity.x + b.velocity.y
                                * b.velocity.y,
                    ;
                }
                let sx = crate::math::scale_by_milli(b.velocity.x, dt);
                let sy = crate::math::scale_by_milli(b.velocity.y, dt);
                proof {
                    crate::math::lemma_milli_scale_bound(b.velocity.x as int, dt as int, 540);
                    crate::math::lemma_milli_scale_bound(b.velocity.y as int, dt as int, 540);
                    assert((540 * dt) / 1000 <= 32_400);
                    assert(state.entities@[i as int] == old(state).entities@[i as int]);
                    assert(-POSITION_LIMIT - 100_000 <= old(state).entities@[i as int].transform.x
                        <= POSITION_LIMIT + 100_000);
                }
                e.transform = Vec2 { x: e.transform.x + sx, y: e.transform.y + sy };
                state.entities.set(i, e);
            }
            i = i + 1;
        }
    }
}

/// The contact normal between the proxies `you` and `other`, oriented
/// outward from `you`, as a vector.
pub open spec fn record_normal(w: crate::collision::CollisionWorld, you: usize, other: usize) -> Vec2 {
    Vec2 {
        x: crate::collision::normal_x_spec(w.proxies@[you as int], w.proxies@[other as int]) as i64,
        y: crate::collision::normal_y_spec(w.proxies@[you as int], w.proxies@[other as int]) as i64,
    }
}

/// A started record between `you` and `other` draws no response from a
/// ball with velocity `v`: either the pair no longer resolves to a contact
/// normal, or the velocity has no positive component along it (the ball is
/// receding).
pub open spec fn record_rejected(
    w: crate::collision::CollisionWorld,
    v: Vec2,
    you: usize,
    other: usize,
) -> bool {
    ||| !(w.touching(you as int, other as int) && crate::collision::normal_defined(
        w.proxies@[you as int],
        w.proxies@[other as int],
    ))
    ||| dot_spec(v, record_normal(w, you, other)) <= 0
}

/// Every started record of entity `i` is receding with respect to its own
/// current velocity: the whole tick draws no response for that ball.
pub open spec fn all_contacts_receding(s: GameState, i: int) -> bool {
    forall|k: int|
        0 <= k < s.contacts@[i].contacts@.len() ==> match #[trigger] s.contacts@[i].contacts@[k] {
            ContactEventData::Started { you_handle, other_handle, .. } => record_rejected(
                s.context.world,
                s.entities@[i].ball->Some_0.velocity,
                you_handle,
                other_handle,
            ),
            ContactEventData::Stopped { .. } => true,
        }
}

/// The deflected velocity, as a vector.
pub open spec fn deflect_vec_spec(v: Vec2, n: Vec2, j: int) -> Vec2 {
    Vec2 { x: deflect_x_spec(v, n, j) as i64, y: deflect_y_spec(v, n, j) as i64 }
}

/// Whether the response acts on a record when the running velocity is
/// `v`: a started record whose pair still resolves to a contact normal the
/// velocity moves into.
pub open spec fn record_accepts(
    w0: crate::collision::CollisionWorld,
    r: ContactEventData,
    v: Vec2,
) -> bool {
    match r {
        ContactEventData::Started { you_handle, other_handle, .. } => !record_rejected(
            w0,
            v,
            you_handle,
            other_handle,
        ),
        ContactEventData::Stopped { .. } => false,
    }
}

/// The velocity the record `r` leaves behind, given the deflection draw
/// `j`: accepted records reflect about the contact normal and deflect by
/// `j`; every other record leaves the velocity alone.
pub open spec fn record_step(
    w0: crate::collision::CollisionWorld,
    r: ContactEventData,
    v: Vec2,
    j: int,
) -> Vec2 {
    if record_accepts(w0, r, v) {
        match r {
            ContactEventData::Started { you_handle, other_handle, .. } => deflect_vec_spec(
                reflect_vec_spec(v, record_normal(w0, you_handle, other_handle)),
                record_normal(w0, you_handle, other_handle),
                j,
            ),
            ContactEventData::Stopped { .. } => v,
        }
    } else {
        v
    }
}

/// The velocity after processing the first `upto` records of `rs` in
/// order, starting from `v0`, with the deflection draw `js[k]` spent on
/// record `k`.
pub open spec fn response_fold(
    w0: crate::collision::CollisionWorld,
    rs: Seq<ContactEventData>,
    js: Seq<int>,
    upto: int,
    v0: Vec2,
) -> Vec2
    decreases upto,
{
    if upto <= 0 || upto > rs.len() {
        v0
    } else {
        record_step(
            w0,
            rs[upto - 1],
            response_fold(w0, rs, js, upto - 1, v0),
            js[upto - 1],
        )
    }
}

/// How many of the first `upto` records that fold accepts.
pub open spec fn response_accept_count(
    w0: crate::collision::CollisionWorld,
    rs: Seq<ContactEventData>,
    js: Seq<int>,
    upto: int,
    v0: Vec2,
) -> int
    decreases upto,
{
    if upto <= 0 || upto > rs.len() {
        0
    } else {
        response_accept_count(w0, rs, js, upto - 1, v0) + (if record_accepts(
            w0,
            rs[upto - 1],
            response_fold(w0, rs, js, upto - 1, v0),
        ) {
            1int
        } else {
            0int
        })
    }
}

/// The draw `j` lies within the deflection bound of `v` reflected about
/// the record's contact normal.
pub open spec fn draw_in_bound(
    w0: crate::collision::CollisionWorld,
    r: ContactEventData,
    v: Vec2,
    j: int,
) -> bool {
    match r {
        ContactEventData::Started { you_handle, other_handle, .. } => {
            let n = record_normal(w0, you_handle, other_handle);
            let lim = deflection_limit_spec(reflect_vec_spec(v, n), n);
            -lim <= j <= lim
        },
        ContactEventData::Stopped { .. } => true,
    }
}

/// Every draw that fold spends on an accepted record lies within the
/// deflection bound of the reflected velocity at that moment.
pub open spec fn draws_in_bounds(
    w0: crate::collision::CollisionWorld,
    rs: Seq<ContactEventData>,
    js: Seq<int>,
    upto: int,
    v0: Vec2,
) -> bool
    decreases upto,
{
    if upto <= 0 || upto > rs.len() {
        true
    } else {
        let prev = response_fold(w0, rs, js, upto - 1, v0);
        draws_in_bounds(w0, rs, js, upto - 1, v0) && (record_accepts(w0, rs[upto - 1], prev)
            ==> draw_in_bound(w0, rs[upto - 1], prev, js[upto - 1]))
    }
}

/// The fold, its count and its bound check read only the first `upto`
/// draws.
proof fn lemma_response_fold_prefix(
    w0: crate::collision::CollisionWorld,
    rs: Seq<ContactEventData>,
    js1: Seq<int>,
    js2: Seq<int>,
    upto: int,
    v0: Vec2,
)
    requires
        forall|t: int| 0 <= t < upto ==> js1[t] == js2[t],
    ensures
        response_fold(w0, rs, js1, upto, v0) == response_fold(w0, rs, js2, upto, v0),
        response_accept_count(w0, rs, js1, upto, v0) == response_accept_count(
            w0,
            rs,
            js2,
            upto,
            v0,
        ),
        draws_in_bounds(w0, rs, js1, upto, v0) == draws_in_bounds(w0, rs, js2, upto, v0),
    decreases upto,
{
    if upto > 0 {
        lemma_response_fold_prefix(w0, rs, js1, js2, upto - 1, v0);
    }
}

/// The once-per-tick speed-up: `w` is `v` scaled by some drawn per-mill
/// factor when that stays within the hard cap, and `v` unchanged when the
/// scaled speed would pass it.
pub open spec fn scaled_outcome(v: Vec2, w: Vec2) -> bool {
    exists|f: int|
        BALL_MIN_SCALE_MILLI <= f <= BALL_MAX_SCALE_MILLI && {
            let cand = Vec2 {
                x: #[trigger] milli_scale(v.x as int, f) as i64,
                y: milli_scale(v.y as int, f) as i64,
            };
            if norm_sq_spec(cand) <= BALL_MAX_SPEED * BALL_MAX_SPEED {
                w == cand
            } else {
                w == v
            }
        }
}

/// An entity the response system steers: a live ball with a proxy.
pub open spec fn is_responsive_ball(e: GameEntity) -> bool {
    e.alive && e.ball is Some && e.collidable is Some
}

/// The whole per-ball response: the final velocity `w` arises by folding
/// the per-record response over all of the ball's records in order with
/// some sequence of in-bound deflection draws, accepting `c` of them,
/// followed — only when `c > 0` — by the speed-up applied exactly once.
pub open spec fn ball_outcome(s0: GameState, i: int, w: Vec2, c: int) -> bool {
    exists|js: Seq<int>|
        #![trigger response_fold(
            s0.context.world,
            s0.contacts@[i].contacts@,
            js,
            s0.contacts@[i].contacts@.len() as int,
            s0.entities@[i].ball->Some_0.velocity,
        )]
        draws_in_bounds(
            s0.context.world,
            s0.contacts@[i].contacts@,
            js,
            s0.contacts@[i].contacts@.len() as int,
            s0.entities@[i].ball->Some_0.velocity,
        ) && c == response_accept_count(
            s0.context.world,
            s0.contacts@[i].contacts@,
            js,
            s0.contacts@[i].contacts@.len() as int,
            s0.entities@[i].ball->Some_0.velocity,
        ) && (if c > 0 {
            scaled_outcome(
                response_fold(
                    s0.context.world,
                    s0.contacts@[i].contacts@,
                    js,
                    s0.contacts@[i].contacts@.len() as int,
                    s0.entities@[i].ball->Some_0.velocity,
                ),
                w,
            )
        } else {
            w == response_fold(
                s0.context.world,
                s0.contacts@[i].contacts@,
                js,
                s0.contacts@[i].contacts@.len() as int,
                s0.entities@[i].ball->Some_0.velocity,
            )
        })
}

/// One diagnostic entry per accepted contact: the concatenation, in entity
/// order, of `cs[i]` copies of entity `i`'s id.
pub open spec fn ids_with_counts(es: Seq<GameEntity>, cs: Seq<int>, k: int) -> Seq<u64>
    decreases k,
{
    if k <= 0 {
        Seq::empty()
    } else {
        ids_with_counts(es, cs, k - 1) + (if cs[k - 1] <= 0 {
            Seq::empty()
        } else {
            Seq::new(cs[k - 1] as nat, |q: int| es[k - 1].id)
        })
    }
}

/// `ids_with_counts` reads only the first `k` counts.
proof fn lemma_ids_with_counts_prefix(es: Seq<GameEntity>, cs1: Seq<int>, cs2: Seq<int>, k: int)
    requires
        forall|t: int| 0 <= t < k ==> cs1[t] == cs2[t],
    ensures
        ids_with_counts(es, cs1, k) == ids_with_counts(es, cs2, k),
    decreases k,
{
    if k > 0 {
        lemma_ids_with_counts_prefix(es, cs1, cs2, k - 1);
    }
}

/// How one response tick may change a ball: nothing but the ball
/// component moves; the speed stays under the hard cap or does not grow;
/// and over the whole tick the squared speed grows by at most the largest
/// scale factor squared — the speed-up is applied at most once per tick.
pub open spec fn ball_response_rel(e0: GameEntity, e1: GameEntity) -> bool {
    &&& e1 == (GameEntity { ball: e1.ball, ..e0 })
    &&& match (e0.ball, e1.ball) {
        (Some(b0), Some(b1)) => {
            &&& (norm_sq_spec(b1.velocity) <= BALL_MAX_SPEED * BALL_MAX_SPEED || norm_sq_spec(
                b1.velocity,
            ) <= norm_sq_spec(b0.velocity))
            &&& 1_000_000 * norm_sq_spec(b1.velocity) <= (BALL_MAX_SCALE_MILLI
                * BALL_MAX_SCALE_MILLI) * norm_sq_spec(b0.velocity)
        },
        (None, None) => true,
        _ => false,
    }
}

/// The response system: reads this tick's started contact records of every
/// live ball, reflects and randomly deflects the velocity on each contact
/// the ball is actually moving into, and, when at least one contact was
/// accepted, scales the speed up by a random factor once — unless the
/// result would pass the hard speed cap.
pub struct BallCollisionSystem;

impl BallCollisionSystem {
    /// One response tick.  Returns one entry, the entity's id, for every
    /// accepted contact: the diagnostic stream a caller may log.
    pub fn run(&self, state: &mut GameState) -> (hits: Vec<u64>)
        requires
            old(state).wf(),
        ensures
            final(state).wf(),
            final(state).entities@.len() == old(state).entities@.len(),
            final(state).context == old(state).context,
            final(state).contacts@ == old(state).contacts@,
            forall|i: int|
                0 <= i < old(state).entities@.len() ==> ball_response_rel(
                    old(state).entities@[i],
                    #[trigger] final(state).entities@[i],
                ),
            forall|i: int|
                0 <= i < old(state).entities@.len() && old(state).entities@[i].alive && old(
                    state,
                ).entities@[i].ball is Some && old(state).entities@[i].collidable is Some
                    && all_contacts_receding(*old(state), i) ==> (#[trigger] final(state).entities@[i]).ball
                    == old(state).entities@[i].ball,
            exists|cs: Seq<int>|
                #![trigger ids_with_counts(old(state).entities@, cs, old(state).entities@.len() as int)]
                cs.len() == old(state).entities@.len() && (forall|i: int|
                    0 <= i < old(state).entities@.len() ==> (if is_responsive_ball(
                        #[trigger] old(state).entities@[i],
                    ) {
                        ball_outcome(
                            *old(state),
                            i,
                            final(state).entities@[i].ball->Some_0.velocity,
                            cs[i],
                        )
                    } else {
                        cs[i] == 0
                    })) && hits@ == ids_with_counts(
                    old(state).entities@,
                    cs,
                    old(state).entities@.len() as int,
                ),
    {
        let mut hits: Vec<u64> = Vec::new();
        let ghost mut cs: Seq<int> = Seq::empty();
        let n = state.entities.len();
        let mut i: usize = 0;
        while i < n
            invariant
                state.wf(),
                n == state.entities@.len(),
                i <= n,
                state.context == old(state).context,
                state.contacts@ == old(state).contacts@,
                forall|t: int| i <= t < n ==> state.entities@[t] == old(state).entities@[t],
                forall|t: int|
                    0 <= t < i ==> ball_response_rel(
                        old(state).entities@[t],
                        #[trigger] state.entities@[t],
                    ),
                forall|t: int|
                    0 <= t < i && old(state).entities@[t].alive && old(state).entities@[t].ball
                        is Some && old(state).entities@[t].collidable is Some
                        && all_contacts_receding(*old(state), t) ==> (#[trigger] state.entities@[t]).ball
                        == old(state).entities@[t].ball,
                cs.len() == i,
                forall|t: int|
                    0 <= t < i && is_responsive_ball(#[trigger] old(state).entities@[t])
                        ==> ball_outcome(
                        *old(state),
                        t,
                        state.entities@[t].ball->Some_0.velocity,
                        cs[t],
                    ),
                forall|t: int|
                    0 <= t < i && !is_responsive_ball(#[trigger] old(state).entities@[t])
                        ==> cs[t] == 0,
                hits@ == ids_with_counts(old(state).entities@, cs, i as int),
            decreases n - i,
        {
            let mut e = state.entities[i];
            if e.alive && e.ball.is_some() && e.collidable.is_some() {
                let b0 = e.ball.unwrap();
                proof {
                    assert(entity_wf(
                        state.entities@[i as int],
                        state.context.world.proxies@.len() as int,
                    ));
                    assert(BALL_MAX_SPEED * BALL_MAX_SPEED < SPEED_SQ_LIMIT) by (nonlinear_arith);
                }
                let mut v = b0.velocity;
                let mut c: usize = 0;
                let ghost mut js: Seq<int> = Seq::empty();
                let m = state.contacts[i].contacts.len();
                proof {
                    assert(hits@ =~= ids_with_counts(old(state).entities@, cs, i as int)
                        + Seq::new(0nat, |q: int| old(state).entities@[i as int].id));
                }
                let mut k: usize = 0;
                while k < m
                    invariant
                        state.wf(),
                        n == state.entities@.len(),
                        i < n,
                        k <= m,
                        state.context == old(state).context,
                        state.contacts@ == old(state).contacts@,
                        forall|t: int| i <= t < n ==> state.entities@[t] == old(state).entities@[t],
                        forall|t: int|
                            0 <= t < i ==> ball_response_rel(
                                old(state).entities@[t],
                                #[trigger] state.entities@[t],
                            ),
                        forall|t: int|
                            0 <= t < i && old(state).entities@[t].alive && old(state).entities@[t].ball
                                is Some && old(state).entities@[t].collidable is Some
                                && all_contacts_receding(*old(state), t) ==> (
                            #[trigger] state.entities@[t]).ball == old(state).entities@[t].ball,
                        m == state.contacts@[i as int].contacts@.len(),
                        e == old(state).entities@[i as int],
                        old(state).entities@[i as int].ball == Some(b0),
                        old(state).entities@[i as int].alive,
                        old(state).entities@[i as int].collidable is Some,
                        norm_sq_spec(b0.velocity) <= BALL_MAX_SPEED * BALL_MAX_SPEED,
                        norm_sq_spec(v) <= norm_sq_spec(b0.velocity),
                        vel_in_range(v),
                        all_contacts_receding(*old(state), i as int) ==> (v == b0.velocity && c
                            == 0),
                        c <= k,
                        cs.len() == i,
                        forall|t: int|
                            0 <= t < i && is_responsive_ball(#[trigger] old(state).entities@[t])
                                ==> ball_outcome(
                                *old(state),
                                t,
                                state.entities@[t].ball->Some_0.velocity,
                                cs[t],
                            ),
                        forall|t: int|
                            0 <= t < i && !is_responsive_ball(#[trigger] old(state).entities@[t])
                                ==> cs[t] == 0,
                        hits@ == ids_with_counts(old(state).entities@, cs, i as int) + Seq::new(
                            c as nat,
                            |q: int| old(state).entities@[i as int].id,
                        ),
                        js.len() == k,
                        v == response_fold(
                            old(state).context.world,
                            old(state).contacts@[i as int].contacts@,
                            js,
                            k as int,
                            b0.velocity,
                        ),
                        c as int == response_accept_count(
                            old(state).context.world,
                            old(state).contacts@[i as int].contacts@,
                            js,
                            k as int,
                            b0.velocity,
                        ),
                        draws_in_bounds(
                            old(state).context.world,
                            old(state).contacts@[i as int].contacts@,
                            js,
                            k as int,
                            b0.velocity,
                        ),
                    decreases m - k,
                {
                    let rec = state.contacts[i].contacts[k];
                    if let ContactEventData::Started { you_handle, other_handle, .. } = rec {
                        proof {
                            assert(contact_records_wf(
                                state.contacts@[i as int],
                                state.entities@[i as int].id,
                                state.context.world.proxies@.len() as int,
                            ));
                            assert(crate::game::record_wf(
                                state.contacts@[i as int].contacts@[k as int],
                                state.entities@[i as int].id,
                                state.context.world.proxies@.len() as int,
                            ));
                        }
                        let normal_opt = state.context.world.contact_normal(
                            you_handle,
                            other_handle,
                        );
                        if let Some(normal) = normal_opt {
                            let d = {
                                proof {
                                    lemma_vel_products(v, normal);
                                }
                                v.dot(&normal)
                            };
                            if d > 0 {
                                let v2 = v.reflect(&normal);
                                let lim = deflection_limit(&v2, &normal);
                                let j = rand_in_range(&mut state.rng, -lim, lim);
                                let w = respond_to_contact(&v, &normal, j);
                                proof {
                                    if all_contacts_receding(*old(state), i as int) {
                                        assert(record_rejected(
                                            old(state).context.world,
                                            b0.velocity,
                                            you_handle,
                                            other_handle,
                                        ));
                                        assert(normal == record_normal(
                                            old(state).context.world,
                                            you_handle,
                                            other_handle,
                                        ));
                                        assert(false);
                                    }
                                    assert(normal == record_normal(
                                        old(state).context.world,
                                        you_handle,
                                        other_handle,
                                    ));
                                    assert(v2 == reflect_vec_spec(v, normal));
                                    assert(w == deflect_vec_spec(
                                        reflect_vec_spec(
                                            v,
                                            record_normal(
                                                old(state).context.world,
                                                you_handle,
                                                other_handle,
                                            ),
                                        ),
                                        record_normal(
                                            old(state).context.world,
                                            you_handle,
                                            other_handle,
                                        ),
                                        j as int,
                                    ));
                                    assert(record_accepts(
                                        old(state).context.world,
                                        old(state).contacts@[i as int].contacts@[k as int],
                                        v,
                                    ));
                                    let ghost js_prev = js;
                                    js = js.push(j as int);
                                    lemma_response_fold_prefix(
                                        old(state).context.world,
                                        old(state).contacts@[i as int].contacts@,
                                        js_prev,
                                        js,
                                        k as int,
                                        b0.velocity,
                                    );
                                    assert(w == record_step(
                                        old(state).context.world,
                                        old(state).contacts@[i as int].contacts@[k as int],
                                        v,
                                        j as int,
                                    ));
                                    assert(w == response_fold(
                                        old(state).context.world,
                                        old(state).contacts@[i as int].contacts@,
                                        js,
                                        k as int + 1,
                                        b0.velocity,
                                    ));
                                    assert(c as int + 1 == response_accept_count(
                                        old(state).context.world,
                                        old(state).contacts@[i as int].contacts@,
                                        js,
                                        k as int + 1,
                                        b0.velocity,
                                    ));
                                    assert(draws_in_bounds(
                                        old(state).context.world,
                                        old(state).contacts@[i as int].contacts@,
                                        js,
                                        k as int + 1,
                                        b0.velocity,
                                    ));
                                }
                                v = w;
                                c = c + 1;
                                hits.push(e.id);
                                proof {
                                    assert(e == old(state).entities@[i as int]);
                                    assert(hits@ =~= ids_with_counts(
                                        old(state).entities@,
                                        cs,
                                        i as int,
                                    ) + Seq::new(
                                        c as nat,
                                        |q: int| old(state).entities@[i as int].id,
                                    ));
                                }
                            } else {
                                proof {
                                    assert(normal == record_normal(
                                        old(state).context.world,
                                        you_handle,
                                        other_handle,
                                    ));
                                    assert(!record_accepts(
                                        old(state).context.world,
                                        old(state).contacts@[i as int].contacts@[k as int],
                                        v,
                                    ));
                                    let ghost js_prev = js;
                                    js = js.push(0);
                                    lemma_response_fold_prefix(
                                        old(state).context.world,
                                        old(state).contacts@[i as int].contacts@,
                                        js_prev,
                                        js,
                                        k as int,
                                        b0.velocity,
                                    );
                                    assert(v == response_fold(
                                        old(state).context.world,
                                        old(state).contacts@[i as int].contacts@,
                                        js,
                                        k as int + 1,
                                        b0.velocity,
                                    ));
                                    assert(c as int == response_accept_count(
                                        old(state).context.world,
                                        old(state).contacts@[i as int].contacts@,
                                        js,
                                        k as int + 1,
                                        b0.velocity,
                                    ));
                                    assert(draws_in_bounds(
                                        old(state).context.world,
                                        old(state).contacts@[i as int].contacts@,
                                        js,
                                        k as int + 1,
                                        b0.velocity,
                                    ));
                                }
                            }
                        } else {
                            proof {
                                assert(!record_accepts(
                                    old(state).context.world,
                                    old(state).contacts@[i as int].contacts@[k as int],
                                    v,
                                ));
                                let ghost js_prev = js;
                                js = js.push(0);
                                lemma_response_fold_prefix(
                                    old(state).context.world,
                                    old(state).contacts@[i as int].contacts@,
                                    js_prev,
                                    js,
                                    k as int,
                                    b0.velocity,
                                );
                                assert(v == response_fold(
                                    old(state).context.world,
                                    old(state).contacts@[i as int].contacts@,
                                    js,
                                    k as int + 1,
                                    b0.velocity,
                                ));
                                assert(c as int == response_accept_count(
                                    old(state).context.world,
                                    old(state).contacts@[i as int].contacts@,
                                    js,
                                    k as int + 1,
                                    b0.velocity,
                                ));
                                assert(draws_in_bounds(
                                    old(state).context.world,
                                    old(state).contacts@[i as int].contacts@,
                                    js,
                                    k as int + 1,
                                    b0.velocity,
                                ));
                            }
                        }
                    } else {
                        proof {
                            assert(!record_accepts(
                                old(state).context.world,
                                old(state).contacts@[i as int].contacts@[k as int],
                                v,
                            ));
                            let ghost js_prev = js;
                            js = js.push(0);
                            lemma_response_fold_prefix(
                                old(state).context.world,
                                old(state).contacts@[i as int].contacts@,
                                js_prev,
                                js,
                                k as int,
                                b0.velocity,
                            );
                            assert(v == response_fold(
                                old(state).context.world,
                                old(state).contacts@[i as int].contacts@,
                                js,
                                k as int + 1,
                                b0.velocity,
                            ));
                            assert(c as int == response_accept_count(
                                old(state).context.world,
                                old(state).contacts@[i as int].contacts@,
                                js,
                                k as int + 1,
                                b0.velocity,
                            ));
                            assert(draws_in_bounds(
                                old(state).context.world,
                                old(state).contacts@[i as int].contacts@,
                                js,
                                k as int + 1,
                                b0.velocity,
                            ));
                        }
                    }
                    k = k + 1;
                }
                let ghost v_mid = v;
                if c > 0 {
                    let f = rand_in_range(
                        &mut state.rng,
                        BALL_MIN_SCALE_MILLI,
                        BALL_MAX_SCALE_MILLI,
                    );
                    let cand = scale_velocity(&v, f);
                    let c2 = cand.norm_sq();
                    if c2 <= BALL_MAX_SPEED * BALL_MAX_SPEED {
                        proof {
                            assert(0 <= norm_sq_spec(v)) by (nonlinear_arith)
                                requires
                                    norm_sq_spec(v) == v.x * v.x + v.y * v.y,
                            ;
                            assert(1_000_000 * norm_sq_spec(cand) <= (BALL_MAX_SCALE_MILLI
                                * BALL_MAX_SCALE_MILLI) * norm_sq_spec(b0.velocity))
                                by (nonlinear_arith)
                                requires
                                    1_000_000 * norm_sq_spec(cand) <= (f * f) * norm_sq_spec(v),
                                    1000 <= f <= 1100,
                                    0 <= norm_sq_spec(v) <= norm_sq_spec(b0.velocity),
                                    BALL_MAX_SCALE_MILLI == 1100,
                            ;
                        }
                        v = cand;
                    }
                    proof {
                        assert(cand == (Vec2 {
                            x: milli_scale(v_mid.x as int, f as int) as i64,
                            y: milli_scale(v_mid.y as int, f as int) as i64,
                        }));
                        assert(scaled_outcome(v_mid, v));
                    }
                }
                proof {
                    assert(ball_outcome(*old(state), i as int, v, c as int)) by {
                        assert(v_mid == response_fold(
                            old(state).context.world,
                            old(state).contacts@[i as int].contacts@,
                            js,
                            old(state).contacts@[i as int].contacts@.len() as int,
                            b0.velocity,
                        ));
                        assert(c as int == response_accept_count(
                            old(state).context.world,
                            old(state).contacts@[i as int].contacts@,
                            js,
                            old(state).contacts@[i as int].contacts@.len() as int,
                            b0.velocity,
                        ));
                        assert(draws_in_bounds(
                            old(state).context.world,
                            old(state).contacts@[i as int].contacts@,
                            js,
                            old(state).contacts@[i as int].contacts@.len() as int,
                            b0.velocity,
                        ));
                    }
                }
                proof {
                    assert(0 <= norm_sq_spec(b0.velocity)) by (nonlinear_arith)
                        requires
                            norm_sq_spec(b0.velocity) == b0.velocity.x * b0.velocity.x
                                + b0.velocity.y * b0.velocity.y,
                    ;
                    assert(1_000_000 * norm_sq_spec(v) <= (BALL_MAX_SCALE_MILLI
                        * BALL_MAX_SCALE_MILLI) * norm_sq_spec(b0.velocity)) by (nonlinear_arith)
                        requires
                            norm_sq_spec(v) <= norm_sq_spec(b0.velocity) || 1_000_000
                                * norm_sq_spec(v) <= (BALL_MAX_SCALE_MILLI * BALL_MAX_SCALE_MILLI)
                                * norm_sq_spec(b0.velocity),
                            0 <= norm_sq_spec(b0.velocity),
                    ;
                }
                e.ball = Some(Ball { velocity: v });
                let ghost es_prev = state.entities@;
                state.entities.set(i, e);
                proof {
                    let ghost cs_prev = cs;
                    cs = cs.push(c as int);
                    lemma_ids_with_counts_prefix(old(state).entities@, cs_prev, cs, i as int);
                    assert(hits@ =~= ids_with_counts(old(state).entities@, cs, i as int + 1));
                    assert(state.entities@[i as int].ball->Some_0.velocity == v);
                    assert(cs[i as int] == c as int);
                    assert(is_responsive_ball(old(state).entities@[i as int]));
                    assert(ball_outcome(
                        *old(state),
                        i as int,
                        state.entities@[i as int].ball->Some_0.velocity,
                        cs[i as int],
                    ));
                    assert forall|t: int|
                        0 <= t < i + 1 && is_responsive_ball(#[trigger] old(state).entities@[t])
                            implies ball_outcome(
                        *old(state),
                        t,
                        state.entities@[t].ball->Some_0.velocity,
                        cs[t],
                    ) by {
                        if t < i {
                            assert(state.entities@[t] == es_prev[t]);
                            assert(cs[t] == cs_prev[t]);
                            assert(ball_outcome(
                                *old(state),
                                t,
                                es_prev[t].ball->Some_0.velocity,
                                cs_prev[t],
                            ));
                        }
                    }
                }
            } else {
                proof {
                    let e0 = old(state).entities@[i as int];
                    if e0.ball is Some {
                        let bv = e0.ball->Some_0.velocity;
                        assert(0 <= norm_sq_spec(bv)) by (nonlinear_arith)
                            requires
                                norm_sq_spec(bv) == bv.x * bv.x + bv.y * bv.y,
                        ;
                        assert(1_000_000 * norm_sq_spec(bv) <= (BALL_MAX_SCALE_MILLI
                            * BALL_MAX_SCALE_MILLI) * norm_sq_spec(bv)) by (nonlinear_arith)
                            requires
                                0 <= norm_sq_spec(bv),
                        ;
                    }
                    assert(ball_response_rel(e0, state.entities@[i as int]));
                    let ghost cs_prev = cs;
                    cs = cs.push(0);
                    lemma_ids_with_counts_prefix(old(state).entities@, cs_prev, cs, i as int);
                    assert(hits@ =~= ids_with_counts(old(state).entities@, cs, i as int + 1));
                    assert(!is_responsive_ball(old(state).entities@[i as int]));
                    assert forall|t: int|
                        0 <= t < i + 1 && is_responsive_ball(#[trigger] old(state).entities@[t])
                            implies ball_outcome(
                        *old(state),
                        t,
                        state.entities@[t].ball->Some_0.velocity,
                        cs[t],
                    ) by {
                        assert(cs[t] == cs_prev[t]);
                        assert(ball_outcome(
                            *old(state),
                            t,
                            state.entities@[t].ball->Some_0.velocity,
                            cs_prev[t],
                        ));
                    }
                }
            }
            i = i + 1;
        }
        proof {
            assert(hits@ == ids_with_counts(
                old(state).entities@,
                cs,
                old(state).entities@.len() as int,
            ));
        }
        hits
    }
}

/// Products with a component of an axis-aligned unit vector stay bounded.
proof fn lemma_unit_mul_bound(a: int, u: int, m: int) by (nonlinear_arith)
    requires
        -m <= a <= m,
        -1 <= u <= 1,
    ensures
        -m <= a * u <= m,
        -m <= a * (-u) <= m,
{
}

} // verus!
