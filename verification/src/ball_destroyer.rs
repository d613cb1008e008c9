use vstd::prelude::*;

verus! {

broadcast use vstd::seq_lib::group_seq_properties;

use crate::collision::Proxy;
use crate::components::Collidable;
use crate::components::ContactEventData;
use crate::game::GameEntity;
use crate::game::GameState;

/// The started record `k` of the live destroyer entity `d` names the
/// entity `target` as its resolved counterpart.
pub open spec fn destroyer_record_names(s: GameState, d: int, k: int, target: u64) -> bool {
    &&& 0 <= d < s.entities@.len()
    &&& s.entities@[d].alive
    &&& s.entities@[d].destroyer is Some
    &&& 0 <= k < s.contacts@[d].contacts@.len()
    &&& match s.contacts@[d].contacts@[k] {
        ContactEventData::Started { other, .. } => other == Some(target),
        ContactEventData::Stopped { .. } => false,
    }
}

/// Some live destroyer observed a started contact with entity `i` this
/// tick: that ball is to be removed.
pub open spec fn destroyer_dooms(s: GameState, i: int) -> bool {
    exists|d: int, k: int| destroyer_record_names(s, d, k, s.entities@[i].id)
}

/// Entity `i` is a live ball with proxy `h` that some destroyer doomed.
pub open spec fn doomed_ball_with_handle(s: GameState, i: int, h: int) -> bool {
    &&& 0 <= i < s.entities@.len()
    &&& s.entities@[i].alive
    &&& s.entities@[i].ball is Some
    &&& destroyer_dooms(s, i)
    &&& s.entities@[i].collidable == Some(Collidable { handle: h as usize })
}

/// Some doomed live ball owns proxy `h`.
pub open spec fn doomed_handle(s: GameState, h: int) -> bool {
    exists|i: int| doomed_ball_with_handle(s, i, h)
}

/// The index of the doomed live ball owning proxy `h`.
pub open spec fn doomed_owner(s: GameState, h: int) -> int {
    choose|i: int| doomed_ball_with_handle(s, i, h)
}

/// Linear membership test.
fn contains_u64(v: &Vec<u64>, x: u64) -> (r: bool)
    ensures
        r == v@.contains(x),
{
    let mut k: usize = 0;
    while k < v.len()
        invariant
            k <= v@.len(),
            forall|t: int| 0 <= t < k ==> v@[t] != x,
        decreases v@.len() - k,
    {
        if v[k] == x {
            proof {
                assert(v@[k as int] == x);
            }
            return true;
        }
        k = k + 1;
    }
    false
}

/// The sentinel system: any ball a live ball-destroyer touched this tick
/// (a started record whose counterpart resolved) is removed from the game,
/// its proxy withdrawn from all further collision queries.
pub struct BallDestroyerSystem;

impl BallDestroyerSystem {
    /// One destroyer tick.  Returns the id of every ball removed, for the
    /// caller's diagnostic log.
    pub fn run(&self, state: &mut GameState) -> (removed: Vec<u64>)
        requires
            old(state).wf(),
        ensures
            final(state).wf(),
            final(state).entities@.len() == old(state).entities@.len(),
            final(state).contacts@ == old(state).contacts@,
            final(state).context.ball_groups == old(state).context.ball_groups,
            final(state).context.other_groups == old(state).context.other_groups,
            final(state).context.world.contacts@ == old(state).context.world.contacts@,
            final(state).context.world.proxies@.len() == old(state).nproxies(),
            forall|i: int|
                0 <= i < old(state).entities@.len() ==> #[trigger] final(state).entities@[i] == (
                if old(state).entities@[i].alive && old(state).entities@[i].ball is Some
                    && destroyer_dooms(*old(state), i) {
                    GameEntity { alive: false, ..old(state).entities@[i] }
                } else {
                    old(state).entities@[i]
                }),
            forall|h: int|
                0 <= h < old(state).nproxies() ==> #[trigger] final(state).context.world.proxies@[h]
                    == (
                if doomed_handle(*old(state), h) {
                    Proxy { live: false, ..old(state).context.world.proxies@[h] }
                } else {
                    old(state).context.world.proxies@[h]
                }),
    {
        let n = state.entities.len();
        let np = state.context.world.proxies.len();
        // First pass: collect the ids every live destroyer's started
        // records resolve to.
        let mut doomed_ids: Vec<u64> = Vec::new();
        let mut d: usize = 0;
        while d < n
            invariant
                state.wf(),
                *state == *old(state),
                n == state.entities@.len(),
                d <= n,
                forall|oid: u64|
                    #[trigger] doomed_ids@.contains(oid) <==> exists|d2: int, k2: int|
                        d2 < d && destroyer_record_names(*old(state), d2, k2, oid),
            decreases n - d,
        {
            let e = state.entities[d];
            if e.alive && e.destroyer.is_some() {
                let m = state.contacts[d].contacts.len();
                let mut k: usize = 0;
                while k < m
                    invariant
                        state.wf(),
                        *state == *old(state),
                        n == state.entities@.len(),
                        d < n,
                        k <= m,
                        m == state.contacts@[d as int].contacts@.len(),
                        state.entities@[d as int].alive,
                        state.entities@[d as int].destroyer is Some,
                        forall|oid: u64|
                            #[trigger] doomed_ids@.contains(oid) <==> (exists|d2: int, k2: int|
                                d2 < d && destroyer_record_names(*old(state), d2, k2, oid))
                                || (exists|k2: int|
                                k2 < k && destroyer_record_names(*old(state), d as int, k2, oid)),
                    decreases m - k,
                {
                    let rec = state.contacts[d].contacts[k];
                    let ghost ids0 = doomed_ids@;
                    if let ContactEventData::Started { other: Some(oid), .. } = rec {
                        doomed_ids.push(oid);
                        proof {
                            assert(destroyer_record_names(*old(state), d as int, k as int, oid));
                            assert forall|o2: u64| #[trigger] doomed_ids@.contains(o2) <==> (
                            exists|d2: int, k2: int|
                                d2 < d && destroyer_record_names(*old(state), d2, k2, o2)) || (
                            exists|k2: int|
                                k2 < k + 1 && destroyer_record_names(
                                    *old(state),
                                    d as int,
                                    k2,
                                    o2,
                                )) by {
                                vstd::seq_lib::lemma_seq_contains_after_push(ids0, oid, o2);
                                if o2 == oid {
                                    assert(destroyer_record_names(
                                        *old(state),
                                        d as int,
                                        k as int,
                                        o2,
                                    ));
                                }
                                if exists|k2: int|
                                    k2 < k + 1 && destroyer_record_names(
                                        *old(state),
                                        d as int,
                                        k2,
                                        o2,
                                    ) {
                                    let k2 = choose|k2: int|
                                        k2 < k + 1 && destroyer_record_names(
                                            *old(state),
                                            d as int,
                                            k2,
                                            o2,
                                        );
                                    if k2 == k {
                                        assert(o2 == oid);
                                    }
                                }
                            }
                        }
                    } else {
                        proof {
                            assert forall|o2: u64| #[trigger] doomed_ids@.contains(o2) <==> (
                            exists|d2: int, k2: int|
                                d2 < d && destroyer_record_names(*old(state), d2, k2, o2)) || (
                            exists|k2: int|
                                k2 < k + 1 && destroyer_record_names(
                                    *old(state),
                                    d as int,
                                    k2,
                                    o2,
                                )) by {
                                if exists|k2: int|
                                    k2 < k + 1 && destroyer_record_names(
                                        *old(state),
                                        d as int,
                                        k2,
                                        o2,
                                    ) {
                                    let k2 = choose|k2: int|
                                        k2 < k + 1 && destroyer_record_names(
                                            *old(state),
                                            d as int,
                                            k2,
                                            o2,
                                        );
                                    if k2 == k {
                                        assert(false);
                                    } else {
                                        assert(k2 < k && destroyer_record_names(
                                            *old(state),
                                            d as int,
                                            k2,
                                            o2,
                                        ));
                                    }
                                }
                            }
                        }
                    }
                    k = k + 1;
                }
                proof {
                    assert forall|oid: u64| #[trigger] doomed_ids@.contains(oid) <==> exists|
                        d2: int,
                        k2: int,
                    |
                        d2 < d + 1 && destroyer_record_names(*old(state), d2, k2, oid) by {
                        if exists|k2: int|
                            k2 < m && destroyer_record_names(*old(state), d as int, k2, oid) {
                            let k2 = choose|k2: int|
                                k2 < m && destroyer_record_names(*old(state), d as int, k2, oid);
                            assert(destroyer_record_names(*old(state), d as int, k2, oid));
                        }
                        if exists|d2: int, k2: int|
                            d2 < d + 1 && destroyer_record_names(*old(state), d2, k2, oid) {
                            let (d2, k2) = choose|d2: int, k2: int|
                                d2 < d + 1 && destroyer_record_names(*old(state), d2, k2, oid);
                            if d2 == d {
                                assert(k2 < m && destroyer_record_names(
                                    *old(state),
                                    d as int,
                                    k2,
                                    oid,
                                ));
                            }
                        }
                    }
                }
            } else {
                proof {
                    assert forall|oid: u64| #[trigger] doomed_ids@.contains(oid) <==> exists|
                        d2: int,
                        k2: int,
                    |
                        d2 < d + 1 && destroyer_record_names(*old(state), d2, k2, oid) by {
                        if exists|d2: int, k2: int|
                            d2 < d + 1 && destroyer_record_names(*old(state), d2, k2, oid) {
                            let (d2, k2) = choose|d2: int, k2: int|
                                d2 < d + 1 && destroyer_record_names(*old(state), d2, k2, oid);
                            if d2 == d {
                                assert(false);
                            }
                        }
                    }
                }
            }
            d = d + 1;
        }
        // Second pass: remove every doomed ball and withdraw its proxy.
        let mut removed: Vec<u64> = Vec::new();
        let mut j: usize = 0;
        while j < n
            invariant
                state.wf(),
                old(state).wf(),
                n == state.entities@.len(),
                j <= n,
                state.contacts@ == old(state).contacts@,
                state.context.ball_groups == old(state).context.ball_groups,
                state.context.other_groups == old(state).context.other_groups,
                state.context.world.contacts@ == old(state).context.world.contacts@,
                state.context.world.proxies@.len() == old(state).nproxies(),
                np == old(state).nproxies(),
                forall|oid: u64|
                    #[trigger] doomed_ids@.contains(oid) <==> exists|d2: int, k2: int|
                        destroyer_record_names(*old(state), d2, k2, oid),
                forall|i: int|
                    0 <= i < n ==> #[trigger] state.entities@[i] == (
                    if i < j && old(state).entities@[i].alive && old(state).entities@[i].ball
                        is Some && destroyer_dooms(*old(state), i) {
                        GameEntity { alive: false, ..old(state).entities@[i] }
                    } else {
                        old(state).entities@[i]
                    }),
                forall|h: int|
                    0 <= h < old(state).nproxies() ==> #[trigger] state.context.world.proxies@[h]
                        == (
                    if doomed_handle(*old(state), h) && doomed_owner(*old(state), h) < j {
                        Proxy { live: false, ..old(state).context.world.proxies@[h] }
                    } else {
                        old(state).context.world.proxies@[h]
                    }),
            decreases n - j,
        {
            let mut e = state.entities[j];
            let doom = e.alive && e.ball.is_some() && contains_u64(&doomed_ids, e.id);
            proof {
                assert(state.entities@[j as int] == old(state).entities@[j as int]);
                if doom {
                    assert(destroyer_dooms(*old(state), j as int));
                }
                if old(state).entities@[j as int].alive && old(state).entities@[j as int].ball
                    is Some && destroyer_dooms(*old(state), j as int) {
                    let (d2, k2) = choose|d2: int, k2: int|
                        destroyer_record_names(
                            *old(state),
                            d2,
                            k2,
                            old(state).entities@[j as int].id,
                        );
                    assert(doomed_ids@.contains(old(state).entities@[j as int].id));
                }
            }
            if doom {
                e.alive = false;
                removed.push(e.id);
                state.entities.set(j, e);
                if let Some(c) = e.collidable {
                    proof {
                        assert(crate::game::entity_wf(
                            old(state).entities@[j as int],
                            old(state).nproxies(),
                        ));
                    }
                    let ghost w_pre = state.context.world;
                    state.context.world.remove_proxy(c.handle);
                    proof {
                        lemma_destroyer_proxy_step(*old(state), w_pre, state.context.world, j as int, c.handle);
                    }
                } else {
                    proof {
                        assert forall|h: int|
                            0 <= h < old(state).nproxies() implies !(doomed_handle(
                            *old(state),
                            h,
                        ) && doomed_owner(*old(state), h) == j) by {
                            if doomed_handle(*old(state), h) {
                                assert(doomed_ball_with_handle(
                                    *old(state),
                                    doomed_owner(*old(state), h),
                                    h,
                                ));
                            }
                        }
                    }
                }
            } else {
                proof {
                    assert forall|h: int|
                        0 <= h < old(state).nproxies() implies !(doomed_handle(*old(state), h)
                        && doomed_owner(*old(state), h) == j) by {
                        if doomed_handle(*old(state), h) {
                            assert(doomed_ball_with_handle(
                                *old(state),
                                doomed_owner(*old(state), h),
                                h,
                            ));
                        }
                    }
                }
            }
            j = j + 1;
        }
        removed
    }
}

/// Removing the proxy of the doomed ball `j` advances the proxy
/// characterization by one entity.
proof fn lemma_destroyer_proxy_step(
    s0: GameState,
    w_pre: crate::collision::CollisionWorld,
    w_post: crate::collision::CollisionWorld,
    j: int,
    handle: usize,
)
    requires
        s0.wf(),
        0 <= j < s0.entities@.len(),
        s0.entities@[j].alive,
        s0.entities@[j].ball is Some,
        destroyer_dooms(s0, j),
        s0.entities@[j].collidable == Some(Collidable { handle }),
        s0.nproxies() <= usize::MAX,
        w_pre.proxies@.len() == s0.nproxies(),
        w_post.proxies@.len() == w_pre.proxies@.len(),
        w_post.proxies@[handle as int] == (Proxy {
            live: false,
            ..w_pre.proxies@[handle as int]
        }),
        forall|h: int|
            0 <= h < w_pre.proxies@.len() && h != handle ==> w_post.proxies@[h]
                == w_pre.proxies@[h],
        forall|h: int|
            0 <= h < s0.nproxies() ==> #[trigger] w_pre.proxies@[h] == (
            if doomed_handle(s0, h) && doomed_owner(s0, h) < j {
                Proxy { live: false, ..s0.context.world.proxies@[h] }
            } else {
                s0.context.world.proxies@[h]
            }),
    ensures
        forall|h: int|
            0 <= h < s0.nproxies() ==> #[trigger] w_post.proxies@[h] == (
            if doomed_handle(s0, h) && doomed_owner(s0, h) < j + 1 {
                Proxy { live: false, ..s0.context.world.proxies@[h] }
            } else {
                s0.context.world.proxies@[h]
            }),
{
    assert(doomed_ball_with_handle(s0, j, handle as int));
    assert forall|h: int| 0 <= h < s0.nproxies() implies #[trigger] w_post.proxies@[h] == (
    if doomed_handle(s0, h) && doomed_owner(s0, h) < j + 1 {
        Proxy { live: false, ..s0.context.world.proxies@[h] }
    } else {
        s0.context.world.proxies@[h]
    }) by {
        assert(w_pre.proxies@[h] == (
        if doomed_handle(s0, h) && doomed_owner(s0, h) < j {
            Proxy { live: false, ..s0.context.world.proxies@[h] }
        } else {
            s0.context.world.proxies@[h]
        }));
        if doomed_handle(s0, h) {
            let i = doomed_owner(s0, h);
            assert(doomed_ball_with_handle(s0, i, h));
            if i == j {
                assert(s0.entities@[j].collidable == Some(
                    Collidable { handle: h as usize },
                ));
                assert(h as usize == handle);
                assert(0 <= h <= usize::MAX);
                assert(h == handle as int);
            }
            if h == handle as int {
                assert(doomed_ball_with_handle(s0, j, h));
                assert(crate::world::owns(s0, i, h as usize));
                assert(crate::world::owns(s0, j, h as usize));
                crate::world::lemma_owner_unique(s0, i, j, h as usize);
            }
        } else {
            if h == handle as int {
                assert(doomed_ball_with_handle(s0, j, h));
            }
        }
    }
}

} // verus!
