use vstd::prelude::*;

verus! {

/// Width of the arena in world units.
pub const ARENA_WIDTH: i64 = 1280;

/// Height of the arena in world units.
pub const ARENA_HEIGHT: i64 = 720;

/// Width of the paddle.
pub const PADDLE_WIDTH: i64 = 128;

/// Height of the paddle.
pub const PADDLE_HEIGHT: i64 = 32;

/// Fastest the paddle may move, in units per second.
pub const PADDLE_MAX_VELOCITY: i64 = 720;

/// The paddle's proportional gain: its desired speed is this many units per
/// second for every unit of distance to the target (the inverse of the
/// distance-to-velocity ratio of one sixth).
pub const PADDLE_VELOCITY_PER_DISTANCE: i64 = 6;

/// Width of the ball.
pub const BALL_WIDTH: i64 = 16;

/// Height of the ball.
pub const BALL_HEIGHT: i64 = 16;

/// Speed the ball is served with, in units per second.
pub const BALL_INITIAL_SPEED: i64 = 60;

/// Hard cap on the ball's speed: no response may push the speed past it.
pub const BALL_MAX_SPEED: i64 = 540;

/// Bound on the sine of the random deflection angle, in thousandths
/// (roughly the sine of fifteen degrees).
pub const BALL_MAX_DEFLECTION_MILLI: i64 = 259;

/// Smallest per-mill factor of the random speed-up after a bounce.
pub const BALL_MIN_SCALE_MILLI: i64 = 1000;

/// Largest per-mill factor of the random speed-up after a bounce.
pub const BALL_MAX_SCALE_MILLI: i64 = 1100;

/// Longest admissible simulation step, in milliseconds.
pub const TICK_MILLIS_LIMIT: i64 = 60_000;

/// Largest position magnitude a tick accepts, chosen so that one step of
/// motion can never overflow the coordinate range.
pub const POSITION_LIMIT: i64 = 900_000_000;

use crate::collision::CollisionContext;
use crate::collision::Proxy;
use crate::collision::Shape;
use crate::collision::initialize_collision_context;
use crate::components::Ball;
use crate::components::BallDestroyer;
use crate::components::Collidable;
use crate::components::Contact;
use crate::components::ContactEventData;
use crate::components::Paddle;
use crate::math::isqrt64;
use crate::random::rand_in_range;
use crate::random::seeded_rng;
use crate::vec2::Vec2;
use crate::vec2::in_coord_range;
use crate::vec2::norm_sq_spec;

/// One game entity with its optional capabilities, the way the tick systems
/// see it: a current visual position, and possibly a collision proxy, a
/// ball velocity, and a paddle or ball-destroyer role.  Its contact records
/// live in the parallel list `GameState::contacts`, rebuilt every tick.
#[derive(Clone, Copy, PartialEq, Eq, Structural, Debug)]
pub struct GameEntity {
    pub id: u64,
    pub alive: bool,
    pub transform: Vec2,
    pub collidable: Option<Collidable>,
    pub ball: Option<Ball>,
    pub paddle: Option<Paddle>,
    pub destroyer: Option<BallDestroyer>,
}

/// A contact record is attributed to its owner and points at proxies the
/// world knows.
pub open spec fn record_wf(r: ContactEventData, id: u64, nproxies: int) -> bool {
    match r {
        ContactEventData::Started { you_handle, other_handle, you, other } => {
            you_handle < nproxies && other_handle < nproxies && you == id
        },
        ContactEventData::Stopped { you_handle, other_handle, you, other } => {
            you_handle < nproxies && other_handle < nproxies && you == id
        },
    }
}

pub open spec fn contact_records_wf(ct: Contact, id: u64, nproxies: int) -> bool {
    forall|k: int| 0 <= k < ct.contacts@.len() ==> record_wf(#[trigger] ct.contacts@[k], id, nproxies)
}

/// Whether the entity is live and tied to a collision proxy: live
/// collidable entities own their handles exclusively.
pub open spec fn owns_handle_some(e: GameEntity) -> bool {
    e.alive && e.collidable is Some
}

/// Position in range, proxy handle known to the world, ball speed within
/// the hard cap.
pub open spec fn entity_wf(e: GameEntity, nproxies: int) -> bool {
    &&& in_coord_range(e.transform)
    &&& (e.collidable matches Some(c) ==> c.handle < nproxies)
    &&& (e.ball matches Some(b) ==> norm_sq_spec(b.velocity) <= BALL_MAX_SPEED * BALL_MAX_SPEED)
}

/// The velocity a fresh game may serve its ball with: a horizontal
/// component `vx` of the direction draw, and the rest of the initial speed
/// (truncated) on the vertical axis, upward or downward.
pub open spec fn serve_velocity(vx: int, up: bool) -> Vec2 {
    let vy = crate::math::isqrt_spec(BALL_INITIAL_SPEED * BALL_INITIAL_SPEED - vx * vx);
    Vec2 { x: vx as i64, y: if up { vy as i64 } else { (-vy) as i64 } }
}

/// The whole simulation: the collision context and every game entity,
/// threaded explicitly through each tick, plus the seedable random source
/// the response system draws from.
pub struct GameState {
    pub context: CollisionContext,
    pub entities: Vec<GameEntity>,
    pub contacts: Vec<Contact>,
    pub next_id: u64,
    pub rng: rand::rngs::StdRng,
}

impl GameState {
    /// Every entity is well formed against the collision world, and every
    /// entity has its slot of this tick's contact records.
    pub open spec fn wf(self) -> bool {
        &&& self.context.world.wf()
        &&& forall|i: int|
            0 <= i < self.entities@.len() ==> entity_wf(
                #[trigger] self.entities@[i],
                self.context.world.proxies@.len() as int,
            )
        &&& self.contacts@.len() == self.entities@.len()
        &&& forall|i: int|
            0 <= i < self.entities@.len() ==> contact_records_wf(
                #[trigger] self.contacts@[i],
                self.entities@[i].id,
                self.context.world.proxies@.len() as int,
            )
        &&& forall|i: int, j: int|
            0 <= i < j < self.entities@.len() && owns_handle_some(#[trigger] self.entities@[i])
                && owns_handle_some(#[trigger] self.entities@[j])
                ==> self.entities@[i].collidable->Some_0.handle
                != self.entities@[j].collidable->Some_0.handle
    }

    /// All entity positions within magnitude `m` on both axes.
    pub open spec fn positions_within(self, m: int) -> bool {
        forall|i: int|
            0 <= i < self.entities@.len() ==> -m <= (#[trigger] self.entities@[i]).transform.x
                <= m && -m <= self.entities@[i].transform.y <= m
    }

    /// Exact check of `positions_within` at the tick bound, for callers
    /// that must establish a tick's precondition.
    pub fn positions_in_range(&self) -> (r: bool)
        ensures
            r == self.positions_within(POSITION_LIMIT as int),
    {
        let mut i: usize = 0;
        while i < self.entities.len()
            invariant
                i <= self.entities@.len(),
                forall|t: int|
                    0 <= t < i ==> -POSITION_LIMIT <= (#[trigger] self.entities@[t]).transform.x
                        <= POSITION_LIMIT && -POSITION_LIMIT <= self.entities@[t].transform.y
                        <= POSITION_LIMIT,
            decreases self.entities@.len() - i,
        {
            let t = &self.entities[i].transform;
            if t.x < -POSITION_LIMIT || t.x > POSITION_LIMIT || t.y < -POSITION_LIMIT || t.y
                > POSITION_LIMIT {
                return false;
            }
            i = i + 1;
        }
        true
    }

    /// Number of proxies the world holds.
    pub open spec fn nproxies(self) -> int {
        self.context.world.proxies@.len() as int
    }

        /// Sets up a fresh game: the three arena walls, the paddle centred at
    /// the bottom, and one ball in the middle of the arena served with a
    /// random direction at (up to rounding) the initial speed, drawn from a
    /// generator seeded with `seed`.
    pub fn on_start(seed: u64) -> (s: GameState)
        ensures
            s.wf(),
            s.entities@.len() == 2,
            s.nproxies() == 5,
            s.entities@[0].paddle == Some(Paddle),
            s.entities@[0].ball is None,
            s.entities@[0].alive,
            s.entities@[0].transform == (Vec2 { x: 640, y: 16 }),
            s.entities@[0].collidable == Some(Collidable { handle: 3 }),
            s.entities@[1].paddle is None,
            s.entities@[1].alive,
            s.entities@[1].transform == (Vec2 { x: 640, y: 360 }),
            s.entities@[1].collidable == Some(Collidable { handle: 4 }),
            s.entities@[1].ball matches Some(b) && norm_sq_spec(b.velocity)
                <= BALL_INITIAL_SPEED * BALL_INITIAL_SPEED,
            s.context.ball_groups == crate::collision::CollisionGroup::Ball,
            s.context.other_groups == crate::collision::CollisionGroup::Obstacle,
            s.context.world.contacts@.len() == 0,
            s.context.world.proxies@[0] == crate::collision::wall_proxy(0, 360, 1, 0),
            s.context.world.proxies@[1] == crate::collision::wall_proxy(640, 720, 0, -1),
            s.context.world.proxies@[2] == crate::collision::wall_proxy(1280, 360, -1, 0),
            s.context.world.proxies@[3] == (Proxy {
                pos: Vec2 { x: 640, y: 16 },
                shape: Shape::Rect { half_w: 64, half_h: 16 },
                group: crate::collision::CollisionGroup::Obstacle,
                live: true,
            }),
            s.context.world.proxies@[4] == (Proxy {
                pos: Vec2 { x: 640, y: 360 },
                shape: Shape::Rect { half_w: 8, half_h: 8 },
                group: crate::collision::CollisionGroup::Ball,
                live: true,
            }),
            exists|vx: int, up: bool|
                -BALL_INITIAL_SPEED <= vx <= BALL_INITIAL_SPEED
                    && s.entities@[1].ball->Some_0.velocity == #[trigger] serve_velocity(vx, up),
            norm_sq_spec(s.entities@[1].ball->Some_0.velocity) >= BALL_INITIAL_SPEED
                * BALL_INITIAL_SPEED - 2 * BALL_INITIAL_SPEED,
    {
        let context = initialize_collision_context();
        let mut rng = seeded_rng(seed);
        let vx = rand_in_range(&mut rng, -BALL_INITIAL_SPEED, BALL_INITIAL_SPEED);
        proof {
            assert(0 <= vx * vx <= BALL_INITIAL_SPEED * BALL_INITIAL_SPEED) by (nonlinear_arith)
                requires
                    -BALL_INITIAL_SPEED <= vx <= BALL_INITIAL_SPEED,
            ;
        }
        let vy_mag = isqrt64(BALL_INITIAL_SPEED * BALL_INITIAL_SPEED - vx * vx);
        let flip = rand_in_range(&mut rng, 0, 1);
        let vy = if flip == 0 {
            vy_mag
        } else {
            -vy_mag
        };
        let velocity = Vec2 { x: vx, y: vy };
        proof {
            assert(norm_sq_spec(velocity) <= BALL_INITIAL_SPEED * BALL_INITIAL_SPEED)
                by (nonlinear_arith)
                requires
                    velocity.x == vx,
                    velocity.y == vy,
                    vy == vy_mag || vy == -vy_mag,
                    vy_mag * vy_mag <= BALL_INITIAL_SPEED * BALL_INITIAL_SPEED - vx * vx,
            ;
            assert(BALL_INITIAL_SPEED * BALL_INITIAL_SPEED <= BALL_MAX_SPEED * BALL_MAX_SPEED)
                by (nonlinear_arith);
            assert(norm_sq_spec(velocity) >= BALL_INITIAL_SPEED * BALL_INITIAL_SPEED - 2
                * BALL_INITIAL_SPEED) by (nonlinear_arith)
                requires
                    velocity.x == vx,
                    velocity.y == vy,
                    vy == vy_mag || vy == -vy_mag,
                    crate::math::is_isqrt(
                        BALL_INITIAL_SPEED * BALL_INITIAL_SPEED - vx * vx,
                        vy_mag as int,
                    ),
                    -BALL_INITIAL_SPEED <= vx <= BALL_INITIAL_SPEED,
                    vy_mag >= 0,
                    norm_sq_spec(velocity) == velocity.x * velocity.x + velocity.y * velocity.y,
            ;
        }
        let mut s = GameState {
            context,
            entities: Vec::new(),
            contacts: Vec::new(),
            next_id: 0,
            rng,
        };
        s.initialize_paddle();
        s.initialize_ball(Vec2 { x: ARENA_WIDTH / 2, y: ARENA_HEIGHT / 2 }, velocity);
        proof {
            assert(velocity == serve_velocity(vx as int, flip == 0));
        }
        s
    }

    /// Spawns the paddle entity: a box of the paddle's half extents in the
    /// obstacle group, centred horizontally at the bottom of the arena.
    pub fn initialize_paddle(&mut self) -> (idx: usize)
        requires
            old(self).wf(),
            old(self).nproxies() < 1_000_000,
        ensures
            final(self).wf(),
            idx == old(self).entities@.len(),
            final(self).nproxies() == old(self).nproxies() + 1,
            final(self).context.world.proxies@ == old(self).context.world.proxies@.push(
                (Proxy {
                    pos: Vec2 { x: 640, y: 16 },
                    shape: Shape::Rect { half_w: 64, half_h: 16 },
                    group: old(self).context.other_groups,
                    live: true,
                }),
            ),
            final(self).context.world.contacts@ == old(self).context.world.contacts@,
            final(self).context.ball_groups == old(self).context.ball_groups,
            final(self).context.other_groups == old(self).context.other_groups,
            final(self).entities@.len() == old(self).entities@.len() + 1,
            forall|i: int|
                0 <= i < old(self).entities@.len() ==> final(self).entities@[i] == old(
                    self,
                ).entities@[i],
            final(self).entities@[idx as int].paddle == Some(Paddle),
            final(self).entities@[idx as int].ball is None,
            final(self).entities@[idx as int].destroyer is None,
            final(self).entities@[idx as int].alive,
            final(self).entities@[idx as int].transform == (Vec2 { x: 640, y: 16 }),
            final(self).entities@[idx as int].collidable == Some(
                Collidable { handle: (old(self).nproxies() as usize) },
            ),
            final(self).contacts@.len() == old(self).contacts@.len() + 1,
            forall|i: int|
                0 <= i < old(self).contacts@.len() ==> final(self).contacts@[i] == old(
                    self,
                ).contacts@[i],
            final(self).contacts@[idx as int].contacts@.len() == 0,
    {
        let transform = Vec2 { x: ARENA_WIDTH / 2, y: PADDLE_HEIGHT / 2 };
        let shape = Shape::Rect { half_w: PADDLE_WIDTH / 2, half_h: PADDLE_HEIGHT / 2 };
        let collidable = Collidable::new_other(&mut self.context, transform, shape);
        let id = self.next_id;
        self.next_id = if id < u64::MAX {
            id + 1
        } else {
            id
        };
        let idx = self.entities.len();
        let entity = GameEntity {
            id,
            alive: true,
            transform,
            collidable: Some(collidable),
            ball: None,
            paddle: Some(Paddle),
            destroyer: None,
        };
        self.entities.push(entity);
        self.contacts.push(Contact { contacts: Vec::new() });
        proof {
            lemma_entities_wf_grow(old(self).entities@, old(self).nproxies(), 1);
        }
        idx
    }

    /// Spawns a ball entity at `pos` with velocity `vel`: a box of the
    /// ball's half extents in the ball group.
    pub fn initialize_ball(&mut self, pos: Vec2, vel: Vec2) -> (idx: usize)
        requires
            old(self).wf(),
            old(self).nproxies() < 1_000_000,
            in_coord_range(pos),
            norm_sq_spec(vel) <= BALL_MAX_SPEED * BALL_MAX_SPEED,
        ensures
            final(self).wf(),
            idx == old(self).entities@.len(),
            final(self).nproxies() == old(self).nproxies() + 1,
            final(self).context.world.proxies@ == old(self).context.world.proxies@.push(
                (Proxy {
                    pos,
                    shape: Shape::Rect { half_w: 8, half_h: 8 },
                    group: old(self).context.ball_groups,
                    live: true,
                }),
            ),
            final(self).context.world.contacts@ == old(self).context.world.contacts@,
            final(self).context.ball_groups == old(self).context.ball_groups,
            final(self).context.other_groups == old(self).context.other_groups,
            final(self).entities@.len() == old(self).entities@.len() + 1,
            forall|i: int|
                0 <= i < old(self).entities@.len() ==> final(self).entities@[i] == old(
                    self,
                ).entities@[i],
            final(self).entities@[idx as int].ball == Some(Ball { velocity: vel }),
            final(self).entities@[idx as int].paddle is None,
            final(self).entities@[idx as int].destroyer is None,
            final(self).entities@[idx as int].alive,
            final(self).entities@[idx as int].transform == pos,
            final(self).entities@[idx as int].collidable == Some(
                Collidable { handle: (old(self).nproxies() as usize) },
            ),
            final(self).contacts@.len() == old(self).contacts@.len() + 1,
            forall|i: int|
                0 <= i < old(self).contacts@.len() ==> final(self).contacts@[i] == old(
                    self,
                ).contacts@[i],
            final(self).contacts@[idx as int].contacts@.len() == 0,
    {
        let shape = Shape::Rect { half_w: BALL_WIDTH / 2, half_h: BALL_HEIGHT / 2 };
        let collidable = Collidable::new_ball(&mut self.context, pos, shape);
        let id = self.next_id;
        self.next_id = if id < u64::MAX {
            id + 1
        } else {
            id
        };
        let idx = self.entities.len();
        let entity = GameEntity {
            id,
            alive: true,
            transform: pos,
            collidable: Some(collidable),
            ball: Some(Ball { velocity: vel }),
            paddle: None,
            destroyer: None,
        };
        self.entities.push(entity);
        self.contacts.push(Contact { contacts: Vec::new() });
        proof {
            lemma_entities_wf_grow(old(self).entities@, old(self).nproxies(), 1);
        }
        idx
    }

    /// Spawns a ball-destroyer sentinel: a box in the obstacle group that
    /// deletes any ball touching it.  Where it stands and how large it is
    /// are left to the caller.
    pub fn initialize_ball_destroyer(&mut self, pos: Vec2, half_w: i64, half_h: i64) -> (idx:
        usize)
        requires
            old(self).wf(),
            old(self).nproxies() < 1_000_000,
            in_coord_range(pos),
            0 < half_w <= 1_000_000,
            0 < half_h <= 1_000_000,
        ensures
            final(self).wf(),
            idx == old(self).entities@.len(),
            final(self).nproxies() == old(self).nproxies() + 1,
            final(self).context.world.proxies@ == old(self).context.world.proxies@.push(
                (Proxy {
                    pos,
                    shape: Shape::Rect { half_w, half_h },
                    group: old(self).context.other_groups,
                    live: true,
                }),
            ),
            final(self).context.world.contacts@ == old(self).context.world.contacts@,
            final(self).context.ball_groups == old(self).context.ball_groups,
            final(self).context.other_groups == old(self).context.other_groups,
            final(self).entities@.len() == old(self).entities@.len() + 1,
            forall|i: int|
                0 <= i < old(self).entities@.len() ==> final(self).entities@[i] == old(
                    self,
                ).entities@[i],
            final(self).entities@[idx as int].destroyer == Some(BallDestroyer),
            final(self).entities@[idx as int].ball is None,
            final(self).entities@[idx as int].alive,
            final(self).entities@[idx as int].transform == pos,
            final(self).entities@[idx as int].collidable == Some(
                Collidable { handle: (old(self).nproxies() as usize) },
            ),
            final(self).contacts@.len() == old(self).contacts@.len() + 1,
            forall|i: int|
                0 <= i < old(self).contacts@.len() ==> final(self).contacts@[i] == old(
                    self,
                ).contacts@[i],
            final(self).contacts@[idx as int].contacts@.len() == 0,
    {
        let shape = Shape::Rect { half_w, half_h };
        let collidable = Collidable::new_other(&mut self.context, pos, shape);
        let id = self.next_id;
        self.next_id = if id < u64::MAX {
            id + 1
        } else {
            id
        };
        let idx = self.entities.len();
        let entity = GameEntity {
            id,
            alive: true,
            transform: pos,
            collidable: Some(collidable),
            ball: None,
            paddle: None,
            destroyer: Some(BallDestroyer),
        };
        self.entities.push(entity);
        self.contacts.push(Contact { contacts: Vec::new() });
        proof {
            lemma_entities_wf_grow(old(self).entities@, old(self).nproxies(), 1);
        }
        idx
    }
}

/// The paddle-controller stage of one tick, between two states: nothing
/// changes but the live paddles' x positions, each stepped toward `target`
/// at the proportional, capped rate.
pub open spec fn paddle_stage(s0: GameState, s1: GameState, target: int, dt: int) -> bool {
    &&& s1.entities@.len() == s0.entities@.len()
    &&& s1.context == s0.context
    &&& s1.contacts@ == s0.contacts@
    &&& forall|i: int|
        0 <= i < s0.entities@.len() ==> #[trigger] s1.entities@[i] == (
        if crate::paddle::is_live_paddle(s0.entities@[i]) {
            GameEntity {
                transform: Vec2 {
                    x: crate::paddle::paddle_step_spec(
                        target,
                        s0.entities@[i].transform.x as int,
                        dt,
                    ) as i64,
                    ..s0.entities@[i].transform
                },
                ..s0.entities@[i]
            }
        } else {
            s0.entities@[i]
        })
}

/// The motion-integrator stage: every live ball advances by velocity times
/// the time step; nothing else changes.
pub open spec fn motion_stage(s0: GameState, s1: GameState, dt: int) -> bool {
    &&& s1.entities@.len() == s0.entities@.len()
    &&& s1.context == s0.context
    &&& s1.contacts@ == s0.contacts@
    &&& forall|i: int|
        0 <= i < s0.entities@.len() ==> #[trigger] s1.entities@[i]
            == crate::ball::moved_ball_entity(s0.entities@[i], dt)
}

/// The synchronization-and-materialization stage: proxies carry the
/// entities' transforms, the contact set is recomputed, and the per-entity
/// records are exactly this tick's events.
pub open spec fn world_stage(s0: GameState, s1: GameState) -> bool {
    &&& s1.entities@ == s0.entities@
    &&& s1.context.ball_groups == s0.context.ball_groups
    &&& s1.context.other_groups == s0.context.other_groups
    &&& crate::world::synced(s0, s1.context.world)
    &&& forall|a: usize, b: usize|
        s1.context.world.in_contact(a as int, b as int) <==> s1.context.world.active_overlap(
            a as int,
            b as int,
        )
    &&& crate::world::materialized(s0, s1)
}

/// The response stage: only ball velocities change, each by the in-order
/// fold of the per-record response with a once-applied speed-up, and the
/// diagnostics hold one entry per accepted contact.
pub open spec fn response_stage(s0: GameState, s1: GameState, hits: Seq<u64>) -> bool {
    &&& s1.entities@.len() == s0.entities@.len()
    &&& s1.context == s0.context
    &&& s1.contacts@ == s0.contacts@
    &&& forall|i: int|
        0 <= i < s0.entities@.len() ==> crate::ball::ball_response_rel(
            s0.entities@[i],
            #[trigger] s1.entities@[i],
        )
    &&& exists|cs: Seq<int>|
        #![trigger crate::ball::ids_with_counts(s0.entities@, cs, s0.entities@.len() as int)]
        cs.len() == s0.entities@.len() && (forall|i: int|
            0 <= i < s0.entities@.len() ==> (if crate::ball::is_responsive_ball(
                #[trigger] s0.entities@[i],
            ) {
                crate::ball::ball_outcome(s0, i, s1.entities@[i].ball->Some_0.velocity, cs[i])
            } else {
                cs[i] == 0
            })) && hits == crate::ball::ids_with_counts(
            s0.entities@,
            cs,
            s0.entities@.len() as int,
        )
}

impl GameState {
    /// One full simulation tick, in the fixed order the game runs its
    /// systems: paddle control, ball motion, synchronization and contact
    /// detection, then the collision response.  Returns one entry per
    /// accepted ball contact, for the caller's diagnostic log.
    pub fn tick(
        &mut self,
        paddle_system: &mut crate::paddle::PaddleSystem,
        pointer_x: Option<i64>,
        dt: i64,
    ) -> (hits: Vec<u64>)
        requires
            old(self).wf(),
            old(self).positions_within(POSITION_LIMIT as int),
            0 <= dt <= TICK_MILLIS_LIMIT,
            -POSITION_LIMIT <= old(paddle_system).target_x <= POSITION_LIMIT,
        ensures
            final(self).wf(),
            final(self).entities@.len() == old(self).entities@.len(),
            final(self).positions_within(POSITION_LIMIT as int + 150_000),
            forall|i: int|
                0 <= i < final(self).entities@.len() && (#[trigger] final(self).entities@[i]).ball
                    is Some ==> norm_sq_spec(final(self).entities@[i].ball->Some_0.velocity)
                    <= BALL_MAX_SPEED * BALL_MAX_SPEED,
            final(paddle_system).target_x == (match pointer_x {
                Some(x) => crate::paddle::clamped_target(x as int) as i64,
                None => old(paddle_system).target_x,
            }),
            -POSITION_LIMIT <= final(paddle_system).target_x <= POSITION_LIMIT,
            exists|s1: GameState, s2: GameState, s3: GameState|
                #![trigger paddle_stage(
                    *old(self),
                    s1,
                    final(paddle_system).target_x as int,
                    dt as int,
                ), world_stage(s2, s3)]
                paddle_stage(*old(self), s1, final(paddle_system).target_x as int, dt as int)
                    && motion_stage(s1, s2, dt as int) && world_stage(s2, s3) && response_stage(
                    s3,
                    *final(self),
                    hits@,
                ),
    {
        paddle_system.run(self, pointer_x, dt);
        let ghost s_paddled = *self;
        let mover = crate::ball::BallMovementSystem;
        mover.run(self, dt);
        let ghost s_moved = *self;
        let updater = crate::world::WorldUpdateSystem;
        updater.run(self);
        let ghost s_synced = *self;
        let collider = crate::ball::BallCollisionSystem;
        let hits = collider.run(self);
        proof {
            assert(paddle_stage(*old(self), s_paddled, paddle_system.target_x as int, dt as int));
            assert(motion_stage(s_paddled, s_moved, dt as int));
            assert(world_stage(s_moved, s_synced));
            assert(response_stage(s_synced, *self, hits@));
        }
        proof {
            assert forall|i: int|
                0 <= i < self.entities@.len() && (#[trigger] self.entities@[i]).ball
                    is Some implies norm_sq_spec(self.entities@[i].ball->Some_0.velocity)
                <= BALL_MAX_SPEED * BALL_MAX_SPEED by {
                assert(entity_wf(self.entities@[i], self.context.world.proxies@.len() as int));
            }
            assert forall|i: int|
                0 <= i < self.entities@.len() implies -(POSITION_LIMIT as int + 150_000) <= (
            #[trigger] self.entities@[i]).transform.x <= POSITION_LIMIT as int + 150_000 && -(
            POSITION_LIMIT as int + 150_000) <= self.entities@[i].transform.y <= POSITION_LIMIT
                as int + 150_000 by {
                assert(crate::ball::ball_response_rel(
                    s_synced.entities@[i],
                    self.entities@[i],
                ));
                assert(s_synced.entities@[i] == s_moved.entities@[i]);
            }
        }
        hits
    }
}

/// Every well-formed state keeps every ball's speed at or below the hard
/// cap: the game starts well formed and each tick preserves
/// well-formedness, so after any number of ticks the speed never exceeds
/// the cap.
pub proof fn lemma_ball_speed_capped(s: GameState, i: int)
    requires
        s.wf(),
        0 <= i < s.entities@.len(),
        s.entities@[i].ball is Some,
    ensures
        norm_sq_spec(s.entities@[i].ball->Some_0.velocity) <= BALL_MAX_SPEED * BALL_MAX_SPEED,
{
    assert(entity_wf(s.entities@[i], s.context.world.proxies@.len() as int));
}

/// Entity well-formedness is kept when the world only gains proxies.
proof fn lemma_entities_wf_grow(es: Seq<GameEntity>, nproxies: int, grow: int)
    requires
        grow >= 0,
        forall|i: int| 0 <= i < es.len() ==> entity_wf(#[trigger] es[i], nproxies),
    ensures
        forall|i: int| 0 <= i < es.len() ==> entity_wf(#[trigger] es[i], nproxies + grow),
{
    assert forall|i: int| 0 <= i < es.len() implies entity_wf(#[trigger] es[i], nproxies
        + grow) by {
        assert(entity_wf(es[i], nproxies));
    }
}

} // verus!
