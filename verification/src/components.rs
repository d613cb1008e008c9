use vstd::prelude::*;

verus! {

use crate::collision::CollisionContext;
use crate::collision::CollisionGroup;
use crate::collision::Proxy;
use crate::collision::Shape;
use crate::collision::shape_wf;
use crate::vec2::Vec2;
use crate::vec2::in_coord_range;

/// Marker component of the paddle entity.
#[derive(Clone, Copy, PartialEq, Eq, Structural, Debug, Default)]
pub struct Paddle;

/// A ball, carrying its velocity in units per second.  Only the response
/// system ever changes it.
#[derive(Clone, Copy, PartialEq, Eq, Structural, Debug)]
pub struct Ball {
    pub velocity: Vec2,
}

/// Ties a game entity to its proxy in the collision world.
#[derive(Clone, Copy, PartialEq, Eq, Structural, Debug)]
pub struct Collidable {
    pub handle: usize,
}

/// One contact observed by an entity this tick: which proxy of its own was
/// involved, the counterpart proxy, the owning entity, and the counterpart
/// entity where one could be resolved.
#[derive(Clone, Copy, PartialEq, Eq, Debug)]
pub enum ContactEventData {
    Started { you_handle: usize, other_handle: usize, you: u64, other: Option<u64> },
    Stopped { you_handle: usize, other_handle: usize, you: u64, other: Option<u64> },
}

/// The contact records an entity accumulated during one tick; cleared and
/// rebuilt every tick, never carried across ticks.
#[derive(Clone, PartialEq, Eq, Debug)]
pub struct Contact {
    pub contacts: Vec<ContactEventData>,
}

/// Marker component of a sentinel that deletes any ball touching it.
#[derive(Clone, Copy, PartialEq, Eq, Structural, Debug, Default)]
pub struct BallDestroyer;

impl Collidable {
    /// Registers a proxy in the ball group and ties it to its entity.
    pub fn new_ball(context: &mut CollisionContext, pos: Vec2, shape: Shape) -> (c: Collidable)
        requires
            old(context).world.wf(),
            shape_wf(shape),
            in_coord_range(pos),
            old(context).world.proxies@.len() < 1_000_000,
        ensures
            final(context).world.wf(),
            c.handle == old(context).world.proxies@.len(),
            final(context).world.proxies@ == old(context).world.proxies@.push(
                (Proxy { pos, shape, group: old(context).ball_groups, live: true }),
            ),
            final(context).world.contacts@ == old(context).world.contacts@,
            final(context).ball_groups == old(context).ball_groups,
            final(context).other_groups == old(context).other_groups,
    {
        let group = context.ball_groups;
        Collidable::new(context, group, pos, shape)
    }

    /// Registers a proxy in the obstacle group and ties it to its entity.
    pub fn new_other(context: &mut CollisionContext, pos: Vec2, shape: Shape) -> (c: Collidable)
        requires
            old(context).world.wf(),
            shape_wf(shape),
            in_coord_range(pos),
            old(context).world.proxies@.len() < 1_000_000,
        ensures
            final(context).world.wf(),
            c.handle == old(context).world.proxies@.len(),
            final(context).world.proxies@ == old(context).world.proxies@.push(
                (Proxy { pos, shape, group: old(context).other_groups, live: true }),
            ),
            final(context).world.contacts@ == old(context).world.contacts@,
            final(context).ball_groups == old(context).ball_groups,
            final(context).other_groups == old(context).other_groups,
    {
        let group = context.other_groups;
        Collidable::new(context, group, pos, shape)
    }

    fn new(context: &mut CollisionContext, group: CollisionGroup, pos: Vec2, shape: Shape) -> (c:
        Collidable)
        requires
            old(context).world.wf(),
            shape_wf(shape),
            in_coord_range(pos),
            old(context).world.proxies@.len() < 1_000_000,
        ensures
            final(context).world.wf(),
            c.handle == old(context).world.proxies@.len(),
            final(context).world.proxies@ == old(context).world.proxies@.push(
                (Proxy { pos, shape, group, live: true }),
            ),
            final(context).world.contacts@ == old(context).world.contacts@,
            final(context).ball_groups == old(context).ball_groups,
            final(context).other_groups == old(context).other_groups,
    {
        let handle = context.world.add_proxy(pos, shape, group);
        Collidable { handle }
    }
}

} // verus!
