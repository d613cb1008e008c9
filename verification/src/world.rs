use vstd::prelude::*;

verus! {

broadcast use vstd::seq_lib::group_seq_properties;

use crate::collision::CollisionWorld;
use crate::collision::ContactEvent;
use crate::collision::Proxy;
use crate::collision::has_started;
use crate::collision::has_stopped;
use crate::components::Collidable;
use crate::components::Contact;
use crate::components::ContactEventData;
use crate::game::GameEntity;
use crate::game::GameState;

/// Entity `i` is the live owner of proxy `h`.
pub open spec fn owns_seq(es: Seq<GameEntity>, i: int, h: usize) -> bool {
    &&& 0 <= i < es.len()
    &&& es[i].alive
    &&& es[i].collidable == Some(Collidable { handle: h })
}

/// Some live entity owns proxy `h`.
pub open spec fn resolvable_seq(es: Seq<GameEntity>, h: usize) -> bool {
    exists|i: int| owns_seq(es, i, h)
}

/// The index of the live owner of proxy `h`; meaningful only when one
/// exists (and then unique, by well-formedness).
pub open spec fn owner_index_seq(es: Seq<GameEntity>, h: usize) -> int {
    choose|i: int| owns_seq(es, i, h)
}

/// The entity a proxy handle resolves to this tick, or nothing when the
/// owning entity no longer exists.
pub open spec fn resolved_seq(es: Seq<GameEntity>, h: usize) -> Option<u64> {
    if resolvable_seq(es, h) {
        Some(es[owner_index_seq(es, h)].id)
    } else {
        None
    }
}

/// Entity `i` of the state is the live owner of proxy `h`.
pub open spec fn owns(s: GameState, i: int, h: usize) -> bool {
    owns_seq(s.entities@, i, h)
}

/// Some live entity of the state owns proxy `h`.
pub open spec fn handle_resolvable(s: GameState, h: usize) -> bool {
    resolvable_seq(s.entities@, h)
}

/// See `resolved_seq`.
pub open spec fn resolved(s: GameState, h: usize) -> Option<u64> {
    resolved_seq(s.entities@, h)
}

/// The world's proxies after the synchronization step: every proxy with a
/// live owner carries that owner's current transform, every other proxy is
/// untouched.
pub open spec fn synced(s0: GameState, w: CollisionWorld) -> bool {
    &&& w.proxies@.len() == s0.nproxies()
    &&& forall|h: int|
        0 <= h < s0.nproxies() ==> #[trigger] w.proxies@[h] == (
        if resolvable_seq(s0.entities@, h as usize) {
            Proxy {
                pos: s0.entities@[owner_index_seq(s0.entities@, h as usize)].transform,
                ..s0.context.world.proxies@[h]
            }
        } else {
            s0.context.world.proxies@[h]
        })
}

/// The unordered pair `{a, b}` began to touch this tick: it overlaps after
/// the synchronization and was not in contact before.
pub open spec fn pair_started(w0: CollisionWorld, w1: CollisionWorld, a: usize, b: usize) -> bool {
    if a < b {
        w1.active_overlap(a as int, b as int) && !w0.in_contact(a as int, b as int)
    } else {
        w1.active_overlap(b as int, a as int) && !w0.in_contact(b as int, a as int)
    }
}

/// The unordered pair `{a, b}` ceased to touch this tick.
pub open spec fn pair_stopped(w0: CollisionWorld, w1: CollisionWorld, a: usize, b: usize) -> bool {
    if a < b {
        w0.in_contact(a as int, b as int) && !w1.active_overlap(a as int, b as int)
    } else {
        w0.in_contact(b as int, a as int) && !w1.active_overlap(b as int, a as int)
    }
}

/// A contact record, from the owning side.
pub open spec fn mk_record(
    started: bool,
    you_handle: usize,
    other_handle: usize,
    you: u64,
    other: Option<u64>,
) -> ContactEventData {
    if started {
        ContactEventData::Started { you_handle, other_handle, you, other }
    } else {
        ContactEventData::Stopped { you_handle, other_handle, you, other }
    }
}

/// The record list `cs` holds, at entity `i`, a record of the given kind
/// naming the pair `(you, other)` with attribution `yid` and counterpart
/// `oid`.
pub open spec fn holds_record(
    cs: Seq<Contact>,
    i: int,
    started: bool,
    you: usize,
    other: usize,
    yid: u64,
    oid: Option<u64>,
) -> bool {
    cs[i].contacts@.contains(mk_record(started, you, other, yid, oid))
}

/// Some raw event of the given kind in `evs` names the unordered pair
/// `{you, other}`.
pub open spec fn ev_names(evs: Seq<ContactEvent>, started: bool, you: usize, other: usize) -> bool {
    if started {
        evs.contains(ContactEvent::Started { a: you, b: other }) || evs.contains(
            ContactEvent::Started { a: other, b: you },
        )
    } else {
        evs.contains(ContactEvent::Stopped { a: you, b: other }) || evs.contains(
            ContactEvent::Stopped { a: other, b: you },
        )
    }
}

/// The record lists `cs` are exactly what the raw events `evs` materialize
/// to against the entities `es`: entity `i` holds a record naming `(you,
/// other)` exactly when it owns `you` and some event of that kind names the
/// pair, with its own id and the resolved counterpart.
pub open spec fn records_of_events(
    cs: Seq<Contact>,
    es: Seq<GameEntity>,
    evs: Seq<ContactEvent>,
    started: bool,
) -> bool {
    forall|i: int, you: usize, other: usize, yid: u64, oid: Option<u64>|
        0 <= i < cs.len() ==> (#[trigger] holds_record(cs, i, started, you, other, yid, oid) <==> (
        ev_names(evs, started, you, other) && owns_seq(es, i, you) && yid == es[i].id && oid
            == resolved_seq(es, other)))
}

/// No entity's record list holds the same record twice.
pub open spec fn no_duplicate_records(cs: Seq<Contact>) -> bool {
    forall|i: int, k1: int, k2: int|
        0 <= i < cs.len() && 0 <= k1 < k2 < cs[i].contacts@.len()
            ==> #[trigger] cs[i].contacts@[k1] != #[trigger] cs[i].contacts@[k2]
}

/// What one materialization tick leaves in the contact records, given the
/// state before (`s0`) and after (`s1`): entity `i` holds a started record
/// naming counterpart proxy `other` exactly when `i` owns a proxy whose
/// pair with `other` started this tick; the record carries the owner's id
/// and the counterpart's entity where one resolves.  Stopped records
/// likewise.  Both sides of a pair receive their record, and no entity
/// receives a record twice: one record per raw event and side.
pub open spec fn materialized(s0: GameState, s1: GameState) -> bool {
    &&& s1.contacts@.len() == s0.entities@.len()
    &&& no_duplicate_records(s1.contacts@)
    &&& forall|i: int, you: usize, other: usize, yid: u64, oid: Option<u64>|
        0 <= i < s1.contacts@.len() ==> (#[trigger] holds_record(
            s1.contacts@,
            i,
            true,
            you,
            other,
            yid,
            oid,
        ) <==> (pair_started(s0.context.world, s1.context.world, you, other) && owns(s0, i, you)
            && yid == s0.entities@[i].id && oid == resolved(s0, other)))
    &&& forall|i: int, you: usize, other: usize, yid: u64, oid: Option<u64>|
        0 <= i < s1.contacts@.len() ==> (#[trigger] holds_record(
            s1.contacts@,
            i,
            false,
            you,
            other,
            yid,
            oid,
        ) <==> (pair_stopped(s0.context.world, s1.context.world, you, other) && owns(s0, i, you)
            && yid == s0.entities@[i].id && oid == resolved(s0, other)))
}

/// Contact symmetry: whenever the collision world reports that the pair
/// `{a, b}` started to touch on a tick, and both proxies resolve to live
/// entities, then after that tick's materialization each of the two
/// entities holds a started record naming the other — the same event is
/// visible from both sides.
pub proof fn lemma_contact_symmetry(
    s0: GameState,
    s1: GameState,
    i: int,
    j: int,
    a: usize,
    b: usize,
)
    requires
        s0.wf(),
        materialized(s0, s1),
        pair_started(s0.context.world, s1.context.world, a, b),
        owns(s0, i, a),
        owns(s0, j, b),
    ensures
        s1.contacts@[i].contacts@.contains(
            ContactEventData::Started {
                you_handle: a,
                other_handle: b,
                you: s0.entities@[i].id,
                other: Some(s0.entities@[j].id),
            },
        ),
        s1.contacts@[j].contacts@.contains(
            ContactEventData::Started {
                you_handle: b,
                other_handle: a,
                you: s0.entities@[j].id,
                other: Some(s0.entities@[i].id),
            },
        ),
{
    assert(owns_seq(s0.entities@, i, a));
    assert(owns_seq(s0.entities@, j, b));
    lemma_owner_unique(s0, i, owner_index_seq(s0.entities@, a), a);
    lemma_owner_unique(s0, j, owner_index_seq(s0.entities@, b), b);
    assert(resolved_seq(s0.entities@, a) == Some(s0.entities@[i].id));
    assert(resolved_seq(s0.entities@, b) == Some(s0.entities@[j].id));
    assert(pair_started(s0.context.world, s1.context.world, b, a));
    assert(holds_record(s1.contacts@, i, true, a, b, s0.entities@[i].id, Some(s0.entities@[j].id)));
    assert(holds_record(s1.contacts@, j, true, b, a, s0.entities@[j].id, Some(s0.entities@[i].id)));
}

/// Two live owners of one proxy are the same entity.
pub proof fn lemma_owner_unique(s: GameState, i: int, j: int, h: usize)
    requires
        s.wf(),
        owns(s, i, h),
        owns(s, j, h),
    ensures
        i == j,
{
    if i < j {
        assert(crate::game::owns_handle_some(s.entities@[i]));
        assert(crate::game::owns_handle_some(s.entities@[j]));
    } else if j < i {
        assert(crate::game::owns_handle_some(s.entities@[i]));
        assert(crate::game::owns_handle_some(s.entities@[j]));
    }
}

/// First live entity owning proxy `h`, if any.
fn find_owner(entities: &Vec<GameEntity>, h: usize) -> (r: Option<usize>)
    ensures
        match r {
            Some(i) => owns_seq(entities@, i as int, h),
            None => forall|i: int| !owns_seq(entities@, i, h),
        },
{
    let mut i: usize = 0;
    while i < entities.len()
        invariant
            i <= entities@.len(),
            forall|t: int| 0 <= t < i ==> !owns_seq(entities@, t, h),
        decreases entities@.len() - i,
    {
        let e = &entities[i];
        if e.alive {
            if let Some(c) = e.collidable {
                if c.handle == h {
                    return Some(i);
                }
            }
        }
        i = i + 1;
    }
    None
}

/// Appends the record for one side of one raw event to the owner of
/// `handle`, if that proxy still resolves to a live entity; does nothing
/// otherwise.
fn insert_event(state: &mut GameState, handle: usize, other: usize, started: bool)
    requires
        old(state).wf(),
        handle < old(state).nproxies(),
        other < old(state).nproxies(),
    ensures
        final(state).wf(),
        final(state).entities@ == old(state).entities@,
        final(state).context == old(state).context,
        final(state).contacts@.len() == old(state).contacts@.len(),
        !resolvable_seq(old(state).entities@, handle) ==> final(state).contacts@ == old(
            state,
        ).contacts@,
        resolvable_seq(old(state).entities@, handle) ==> {
            &&& final(state).contacts@[owner_index_seq(old(state).entities@, handle)].contacts@
                == old(state).contacts@[owner_index_seq(
                old(state).entities@,
                handle,
            )].contacts@.push(
                mk_record(
                    started,
                    handle,
                    other,
                    old(state).entities@[owner_index_seq(old(state).entities@, handle)].id,
                    resolved_seq(old(state).entities@, other),
                ),
            )
            &&& forall|j: int|
                0 <= j < old(state).contacts@.len() && j != owner_index_seq(
                    old(state).entities@,
                    handle,
                ) ==> final(state).contacts@[j] == old(state).contacts@[j]
        },
{
    let idx_opt = find_owner(&state.entities, handle);
    match idx_opt {
        Some(i) => {
            proof {
                assert(owns(*state, i as int, handle));
                lemma_owner_unique(
                    *state,
                    i as int,
                    owner_index_seq(state.entities@, handle),
                    handle,
                );
            }
            let oid = match find_owner(&state.entities, other) {
                Some(j) => {
                    proof {
                        assert(owns(*state, j as int, other));
                        lemma_owner_unique(
                            *state,
                            j as int,
                            owner_index_seq(state.entities@, other),
                            other,
                        );
                    }
                    Some(state.entities[j].id)
                },
                None => {
                    proof {
                        if resolvable_seq(state.entities@, other) {
                            let w = choose|t: int| owns_seq(state.entities@, t, other);
                            assert(!owns_seq(state.entities@, w, other));
                        }
                    }
                    None
                },
            };
            let you = state.entities[i].id;
            let rec = if started {
                ContactEventData::Started {
                    you_handle: handle,
                    other_handle: other,
                    you,
                    other: oid,
                }
            } else {
                ContactEventData::Stopped {
                    you_handle: handle,
                    other_handle: other,
                    you,
                    other: oid,
                }
            };
            let mut c = state.contacts.remove(i);
            c.contacts.push(rec);
            state.contacts.insert(i, c);
            proof {
                assert(state.contacts@ =~= old(state).contacts@.update(
                    i as int,
                    state.contacts@[i as int],
                ));
                assert(crate::game::contact_records_wf(
                    state.contacts@[i as int],
                    state.entities@[i as int].id,
                    state.context.world.proxies@.len() as int,
                )) by {
                    assert forall|k: int|
                        0 <= k < state.contacts@[i as int].contacts@.len() implies crate::game::record_wf(
                        #[trigger] state.contacts@[i as int].contacts@[k],
                        state.entities@[i as int].id,
                        state.context.world.proxies@.len() as int,
                    ) by {
                        if k < state.contacts@[i as int].contacts@.len() - 1 {
                            assert(state.contacts@[i as int].contacts@[k] == old(
                                state,
                            ).contacts@[i as int].contacts@[k]);
                            assert(crate::game::contact_records_wf(
                                old(state).contacts@[i as int],
                                old(state).entities@[i as int].id,
                                old(state).context.world.proxies@.len() as int,
                            ));
                        }
                    }
                }
            }
        },
        None => {
            proof {
                if resolvable_seq(state.entities@, handle) {
                    let w = choose|t: int| owns_seq(state.entities@, t, handle);
                    assert(!owns_seq(state.entities@, w, handle));
                }
            }
        },
    }
}

/// Materializes one raw event into records on both sides: the owner of `a`
/// learns of counterpart `b` and the owner of `b` of counterpart `a`; a
/// side whose proxy no longer resolves is skipped.
fn materialize_event(state: &mut GameState, a: usize, b: usize, started: bool)
    requires
        old(state).wf(),
        a < old(state).nproxies(),
        b < old(state).nproxies(),
        a != b,
    ensures
        final(state).wf(),
        final(state).entities@ == old(state).entities@,
        final(state).context == old(state).context,
        final(state).contacts@.len() == old(state).contacts@.len(),
        forall|j: int|
            0 <= j < old(state).contacts@.len() && !(resolvable_seq(old(state).entities@, a) && j
                == owner_index_seq(old(state).entities@, a)) && !(resolvable_seq(
                old(state).entities@,
                b,
            ) && j == owner_index_seq(old(state).entities@, b)) ==> final(state).contacts@[j]
                == old(state).contacts@[j],
        resolvable_seq(old(state).entities@, a) ==> final(state).contacts@[owner_index_seq(
            old(state).entities@,
            a,
        )].contacts@ == old(state).contacts@[owner_index_seq(old(state).entities@, a)].contacts@
            .push(
            mk_record(
                started,
                a,
                b,
                old(state).entities@[owner_index_seq(old(state).entities@, a)].id,
                resolved_seq(old(state).entities@, b),
            ),
        ),
        resolvable_seq(old(state).entities@, b) ==> final(state).contacts@[owner_index_seq(
            old(state).entities@,
            b,
        )].contacts@ == old(state).contacts@[owner_index_seq(old(state).entities@, b)].contacts@
            .push(
            mk_record(
                started,
                b,
                a,
                old(state).entities@[owner_index_seq(old(state).entities@, b)].id,
                resolved_seq(old(state).entities@, a),
            ),
        ),
{
    proof {
        if resolvable_seq(state.entities@, a) && resolvable_seq(state.entities@, b) {
            let ia = owner_index_seq(state.entities@, a);
            let ib = owner_index_seq(state.entities@, b);
            assert(owns_seq(state.entities@, ia, a));
            assert(owns_seq(state.entities@, ib, b));
            assert(ia != ib);
        }
    }
    insert_event(state, a, b, started);
    insert_event(state, b, a, started);
}

/// The synchronization and contact-materialization step of one tick: push
/// every live entity's transform into its proxy, recompute contacts, clear
/// every entity's records, and turn each raw event into two records, one on
/// each side whose proxy still resolves to a live entity.
pub struct WorldUpdateSystem;

impl WorldUpdateSystem {
    pub fn run(&self, state: &mut GameState)
        requires
            old(state).wf(),
        ensures
            final(state).wf(),
            final(state).entities@ == old(state).entities@,
            final(state).contacts@.len() == old(state).entities@.len(),
            final(state).context.ball_groups == old(state).context.ball_groups,
            final(state).context.other_groups == old(state).context.other_groups,
            synced(*old(state), final(state).context.world),
            forall|a: usize, b: usize|
                final(state).context.world.in_contact(a as int, b as int)
                    <==> final(state).context.world.active_overlap(a as int, b as int),
            materialized(*old(state), *final(state)),
    {
        let n = state.entities.len();
        let np = state.context.world.proxies.len();
        // Synchronization: reissue every live entity's position.
        let mut i: usize = 0;
        while i < n
            invariant
                state.wf(),
                old(state).wf(),
                n == state.entities@.len(),
                i <= n,
                np == old(state).nproxies(),
                state.entities@ == old(state).entities@,
                state.contacts@ == old(state).contacts@,
                state.context.ball_groups == old(state).context.ball_groups,
                state.context.other_groups == old(state).context.other_groups,
                state.context.world.contacts@ == old(state).context.world.contacts@,
                state.context.world.proxies@.len() == old(state).nproxies(),
                forall|h: int|
                    0 <= h < old(state).nproxies() ==> #[trigger] state.context.world.proxies@[h]
                        == (
                    if resolvable_seq(old(state).entities@, h as usize) && owner_index_seq(
                        old(state).entities@,
                        h as usize,
                    ) < i {
                        Proxy {
                            pos: old(state).entities@[owner_index_seq(
                                old(state).entities@,
                                h as usize,
                            )].transform,
                            ..old(state).context.world.proxies@[h]
                        }
                    } else {
                        old(state).context.world.proxies@[h]
                    }),
            decreases n - i,
        {
            let e = state.entities[i];
            if e.alive && e.collidable.is_some() {
                let c = e.collidable.unwrap();
                proof {
                    assert(crate::game::entity_wf(
                        state.entities@[i as int],
                        state.context.world.proxies@.len() as int,
                    ));
                    assert(owns(*old(state), i as int, c.handle));
                    lemma_owner_unique(
                        *old(state),
                        i as int,
                        owner_index_seq(old(state).entities@, c.handle),
                        c.handle,
                    );
                }
                let ghost w_pre = state.context.world;
                state.context.world.update_proxy(c.handle, e.transform);
                proof {
                    assert forall|h: int|
                        0 <= h < old(state).nproxies() implies #[trigger] state.context.world.proxies@[h]
                        == (
                    if resolvable_seq(old(state).entities@, h as usize) && owner_index_seq(
                        old(state).entities@,
                        h as usize,
                    ) < i + 1 {
                        Proxy {
                            pos: old(state).entities@[owner_index_seq(
                                old(state).entities@,
                                h as usize,
                            )].transform,
                            ..old(state).context.world.proxies@[h]
                        }
                    } else {
                        old(state).context.world.proxies@[h]
                    }) by {
                        assert(0 <= h < w_pre.proxies@.len());
                        assert(owner_index_seq(old(state).entities@, c.handle) == i as int);
                        assert(w_pre.proxies@[h] == (
                        if resolvable_seq(old(state).entities@, h as usize) && owner_index_seq(
                            old(state).entities@,
                            h as usize,
                        ) < i {
                            Proxy {
                                pos: old(state).entities@[owner_index_seq(
                                    old(state).entities@,
                                    h as usize,
                                )].transform,
                                ..old(state).context.world.proxies@[h]
                            }
                        } else {
                            old(state).context.world.proxies@[h]
                        }));
                        if h == c.handle as int {
                            assert(state.context.world.proxies@[h] == (Proxy {
                                pos: e.transform,
                                ..w_pre.proxies@[h]
                            }));
                        } else {
                            assert(state.context.world.proxies@[h] == w_pre.proxies@[h]);
                        }
                        if resolvable_seq(old(state).entities@, h as usize) {
                            let w = owner_index_seq(old(state).entities@, h as usize);
                            assert(owns_seq(old(state).entities@, w, h as usize));
                            if w == i && h != c.handle as int {
                                assert(old(state).entities@[i as int].collidable == Some(
                                    Collidable { handle: h as usize },
                                ));
                                assert(old(state).entities@[i as int].collidable == Some(
                                    Collidable { handle: c.handle },
                                ));
                                assert(h as usize == c.handle);
                                assert(0 <= h <= usize::MAX);
                                assert(h == c.handle as int);
                            }
                        }
                    }
                }
            } else {
                proof {
                    assert forall|h: int|
                        0 <= h < old(state).nproxies() implies #[trigger] state.context.world.proxies@[h]
                        == (
                    if resolvable_seq(old(state).entities@, h as usize) && owner_index_seq(
                        old(state).entities@,
                        h as usize,
                    ) < i + 1 {
                        Proxy {
                            pos: old(state).entities@[owner_index_seq(
                                old(state).entities@,
                                h as usize,
                            )].transform,
                            ..old(state).context.world.proxies@[h]
                        }
                    } else {
                        old(state).context.world.proxies@[h]
                    }) by {
                        if resolvable_seq(old(state).entities@, h as usize) {
                            let w = owner_index_seq(old(state).entities@, h as usize);
                            assert(owns_seq(old(state).entities@, w, h as usize));
                        }
                    }
                }
            }
            i = i + 1;
        }
        proof {
            assert forall|h: int| 0 <= h < old(state).nproxies() implies #[trigger] state.context.world.proxies@[h]
                == (
            if resolvable_seq(old(state).entities@, h as usize) {
                Proxy {
                    pos: old(state).entities@[owner_index_seq(
                        old(state).entities@,
                        h as usize,
                    )].transform,
                    ..old(state).context.world.proxies@[h]
                }
            } else {
                old(state).context.world.proxies@[h]
            }) by {
                if resolvable_seq(old(state).entities@, h as usize) {
                    assert(owns_seq(
                        old(state).entities@,
                        owner_index_seq(old(state).entities@, h as usize),
                        h as usize,
                    ));
                }
            }
        }
        // Contact detection.
        let events = state.context.world.step();
        // Clear every entity's records for this tick.
        let mut fresh: Vec<Contact> = Vec::new();
        let mut k: usize = 0;
        while k < n
            invariant
                k <= n,
                fresh@.len() == k,
                forall|t: int| 0 <= t < k ==> (#[trigger] fresh@[t]).contacts@.len() == 0,
            decreases n - k,
        {
            fresh.push(Contact { contacts: Vec::new() });
            k = k + 1;
        }
        state.contacts = fresh;
        // Materialization: two records per raw event.
        let m = events.len();
        let mut t: usize = 0;
        proof {
            assert(events@.take(0) =~= Seq::<ContactEvent>::empty());
            assert forall|i2: int, you: usize, other: usize, yid: u64, oid: Option<u64>|
                0 <= i2 < n implies !holds_record(state.contacts@, i2, true, you, other, yid, oid)
                && !holds_record(state.contacts@, i2, false, you, other, yid, oid) by {
                assert(state.contacts@[i2].contacts@.len() == 0);
            }
        }
        while t < m
            invariant
                state.wf(),
                old(state).wf(),
                n == state.entities@.len(),
                t <= m,
                m == events@.len(),
                state.entities@ == old(state).entities@,
                state.contacts@.len() == n,
                state.context.ball_groups == old(state).context.ball_groups,
                state.context.other_groups == old(state).context.other_groups,
                synced(*old(state), state.context.world),
                forall|a: usize, b: usize|
                    state.context.world.in_contact(a as int, b as int)
                        <==> state.context.world.active_overlap(a as int, b as int),
                forall|a: usize, b: usize|
                    has_started(events@, a, b) <==> (state.context.world.active_overlap(
                        a as int,
                        b as int,
                    ) && !old(state).context.world.in_contact(a as int, b as int)),
                forall|a: usize, b: usize|
                    has_stopped(events@, a, b) <==> (old(state).context.world.in_contact(
                        a as int,
                        b as int,
                    ) && !state.context.world.active_overlap(a as int, b as int)),
                forall|q1: int, q2: int|
                    0 <= q1 < q2 < events@.len() ==> events@[q1] != events@[q2],
                no_duplicate_records(state.contacts@),
                records_of_events(
                    state.contacts@,
                    old(state).entities@,
                    events@.take(t as int),
                    true,
                ),
                records_of_events(
                    state.contacts@,
                    old(state).entities@,
                    events@.take(t as int),
                    false,
                ),
            decreases m - t,
        {
            let ev = events[t];
            proof {
                assert(events@[t as int] == ev);
                assert(events@.contains(ev));
                assert(events@.take(t as int + 1) =~= events@.take(t as int).push(ev));
            }
            let ghost cs0 = state.contacts@;
            match ev {
                ContactEvent::Started { a, b } => {
                    proof {
                        assert(has_started(events@, a, b));
                        assert(state.context.world.active_overlap(a as int, b as int));
                        assert(!ev_names(events@.take(t as int), true, a, b)) by {
                            if events@.take(t as int).contains(ContactEvent::Started { a, b }) {
                                let idx = choose|idx: int|
                                    0 <= idx < t && events@.take(t as int)[idx]
                                        == ContactEvent::Started { a, b };
                                assert(events@[idx] == events@[t as int]);
                            }
                            if events@.take(t as int).contains(
                                ContactEvent::Started { a: b, b: a },
                            ) {
                                assert(has_started(events@, b, a));
                                assert(state.context.world.active_overlap(b as int, a as int));
                            }
                        }
                    }
                    materialize_event(state, a, b, true);
                    proof {
                        lemma_records_step(
                            cs0,
                            state.contacts@,
                            old(state).entities@,
                            events@,
                            t as int,
                            a,
                            b,
                            true,
                        );
                    }
                },
                ContactEvent::Stopped { a, b } => {
                    proof {
                        assert(has_stopped(events@, a, b));
                        assert(old(state).context.world.in_contact(a as int, b as int));
                        lemma_in_contact_ordered(old(state).context.world, a, b);
                        assert(!ev_names(events@.take(t as int), false, a, b)) by {
                            if events@.take(t as int).contains(ContactEvent::Stopped { a, b }) {
                                let idx = choose|idx: int|
                                    0 <= idx < t && events@.take(t as int)[idx]
                                        == ContactEvent::Stopped { a, b };
                                assert(events@[idx] == events@[t as int]);
                            }
                            if events@.take(t as int).contains(
                                ContactEvent::Stopped { a: b, b: a },
                            ) {
                                assert(has_stopped(events@, b, a));
                                lemma_in_contact_ordered(old(state).context.world, b, a);
                            }
                        }
                    }
                    materialize_event(state, a, b, false);
                    proof {
                        lemma_records_step(
                            cs0,
                            state.contacts@,
                            old(state).entities@,
                            events@,
                            t as int,
                            a,
                            b,
                            false,
                        );
                    }
                },
            }
            t = t + 1;
        }
        proof {
            assert(events@.take(m as int) =~= events@);
            assert forall|you: usize, other: usize|
                ev_names(events@, true, you, other) == pair_started(
                    old(state).context.world,
                    state.context.world,
                    you,
                    other,
                ) && ev_names(events@, false, you, other) == pair_stopped(
                old(state).context.world,
                state.context.world,
                you,
                other,
            ) by {
                assert(has_started(events@, you, other) <==> (
                state.context.world.active_overlap(you as int, other as int) && !old(
                    state,
                ).context.world.in_contact(you as int, other as int)));
                assert(has_started(events@, other, you) <==> (
                state.context.world.active_overlap(other as int, you as int) && !old(
                    state,
                ).context.world.in_contact(other as int, you as int)));
                assert(has_stopped(events@, you, other) <==> (old(
                    state,
                ).context.world.in_contact(you as int, other as int)
                    && !state.context.world.active_overlap(you as int, other as int)));
                assert(has_stopped(events@, other, you) <==> (old(
                    state,
                ).context.world.in_contact(other as int, you as int)
                    && !state.context.world.active_overlap(other as int, you as int)));
                if you == other {
                    assert(!state.context.world.active_overlap(you as int, other as int));
                    if old(state).context.world.in_contact(you as int, you as int) {
                        lemma_in_contact_ordered(old(state).context.world, you, you);
                    }
                }
            }
            assert forall|i2: int, you: usize, other: usize, yid: u64, oid: Option<u64>|
                0 <= i2 < state.contacts@.len() implies ((#[trigger] holds_record(
                state.contacts@,
                i2,
                true,
                you,
                other,
                yid,
                oid,
            ) <==> (pair_started(old(state).context.world, state.context.world, you, other)
                && owns(*old(state), i2, you) && yid == old(state).entities@[i2].id && oid
                == resolved(*old(state), other))) && (holds_record(
                state.contacts@,
                i2,
                false,
                you,
                other,
                yid,
                oid,
            ) <==> (pair_stopped(old(state).context.world, state.context.world, you, other)
                && owns(*old(state), i2, you) && yid == old(state).entities@[i2].id && oid
                == resolved(*old(state), other)))) by {
                assert(holds_record(state.contacts@, i2, true, you, other, yid, oid) <==> (
                ev_names(events@, true, you, other) && owns_seq(old(state).entities@, i2, you)
                    && yid == old(state).entities@[i2].id && oid == resolved_seq(
                    old(state).entities@,
                    other,
                )));
                assert(holds_record(state.contacts@, i2, false, you, other, yid, oid) <==> (
                ev_names(events@, false, you, other) && owns_seq(old(state).entities@, i2, you)
                    && yid == old(state).entities@[i2].id && oid == resolved_seq(
                    old(state).entities@,
                    other,
                )));
                assert(ev_names(events@, true, you, other) == pair_started(
                    old(state).context.world,
                    state.context.world,
                    you,
                    other,
                ));
                assert(ev_names(events@, false, you, other) == pair_stopped(
                    old(state).context.world,
                    state.context.world,
                    you,
                    other,
                ));
            }
        }
    }
}

/// A pair remembered as in contact is ordered: `a < b`.
proof fn lemma_in_contact_ordered(w: CollisionWorld, a: usize, b: usize)
    requires
        w.wf(),
        w.in_contact(a as int, b as int),
    ensures
        a < b,
{
    let q = choose|q: int| 0 <= q < w.contacts@.len() && w.contacts@[q] == (a, b);
    assert(w.contacts@[q] == (a, b));
}

/// One materialized event extends the record lists exactly as the event
/// prefix grows by that event.
proof fn lemma_records_step(
    cs0: Seq<Contact>,
    cs1: Seq<Contact>,
    es: Seq<GameEntity>,
    evs: Seq<ContactEvent>,
    t: int,
    a: usize,
    b: usize,
    started: bool,
)
    requires
        0 <= t < evs.len(),
        evs[t] == (if started {
            ContactEvent::Started { a, b }
        } else {
            ContactEvent::Stopped { a, b }
        }),
        a != b,
        cs1.len() == cs0.len(),
        forall|j: int|
            0 <= j < cs0.len() && !(resolvable_seq(es, a) && j == owner_index_seq(es, a)) && !(
            resolvable_seq(es, b) && j == owner_index_seq(es, b)) ==> cs1[j] == cs0[j],
        resolvable_seq(es, a) ==> cs1[owner_index_seq(es, a)].contacts@ == cs0[owner_index_seq(
            es,
            a,
        )].contacts@.push(
            mk_record(started, a, b, es[owner_index_seq(es, a)].id, resolved_seq(es, b)),
        ),
        resolvable_seq(es, b) ==> cs1[owner_index_seq(es, b)].contacts@ == cs0[owner_index_seq(
            es,
            b,
        )].contacts@.push(
            mk_record(started, b, a, es[owner_index_seq(es, b)].id, resolved_seq(es, a)),
        ),
        resolvable_seq(es, a) && resolvable_seq(es, b) ==> owner_index_seq(es, a)
            != owner_index_seq(es, b),
        forall|i: int, j: int|
            owns_seq(es, i, a) && owns_seq(es, j, a) ==> i == j,
        forall|i: int, j: int|
            owns_seq(es, i, b) && owns_seq(es, j, b) ==> i == j,
        records_of_events(cs0, es, evs.take(t), true),
        records_of_events(cs0, es, evs.take(t), false),
        !ev_names(evs.take(t), started, a, b),
        no_duplicate_records(cs0),
    ensures
        records_of_events(cs1, es, evs.take(t + 1), true),
        records_of_events(cs1, es, evs.take(t + 1), false),
        no_duplicate_records(cs1),
{
    assert(ev_names(evs.take(t), started, b, a) == ev_names(evs.take(t), started, a, b));
    assert forall|i2: int, k1: int, k2: int|
        0 <= i2 < cs1.len() && 0 <= k1 < k2 < cs1[i2].contacts@.len() implies #[trigger] cs1[i2].contacts@[k1]
        != #[trigger] cs1[i2].contacts@[k2] by {
        if resolvable_seq(es, a) && i2 == owner_index_seq(es, a) {
            let rec = mk_record(started, a, b, es[i2].id, resolved_seq(es, b));
            assert(owns_seq(es, i2, a));
            if k2 == cs0[i2].contacts@.len() {
                if cs1[i2].contacts@[k1] == cs1[i2].contacts@[k2] {
                    assert(cs0[i2].contacts@[k1] == rec);
                    assert(cs0[i2].contacts@.contains(rec));
                    assert(holds_record(cs0, i2, started, a, b, es[i2].id, resolved_seq(es, b)));
                    assert(ev_names(evs.take(t), started, a, b));
                }
            } else {
                assert(cs1[i2].contacts@[k1] == cs0[i2].contacts@[k1]);
                assert(cs1[i2].contacts@[k2] == cs0[i2].contacts@[k2]);
            }
        } else if resolvable_seq(es, b) && i2 == owner_index_seq(es, b) {
            let rec = mk_record(started, b, a, es[i2].id, resolved_seq(es, a));
            assert(owns_seq(es, i2, b));
            if k2 == cs0[i2].contacts@.len() {
                if cs1[i2].contacts@[k1] == cs1[i2].contacts@[k2] {
                    assert(cs0[i2].contacts@[k1] == rec);
                    assert(cs0[i2].contacts@.contains(rec));
                    assert(holds_record(cs0, i2, started, b, a, es[i2].id, resolved_seq(es, a)));
                    assert(ev_names(evs.take(t), started, b, a));
                }
            } else {
                assert(cs1[i2].contacts@[k1] == cs0[i2].contacts@[k1]);
                assert(cs1[i2].contacts@[k2] == cs0[i2].contacts@[k2]);
            }
        } else {
            assert(cs1[i2] == cs0[i2]);
        }
    }
    assert(evs.take(t + 1) =~= evs.take(t).push(evs[t]));
    let ev = evs[t];
    assert forall|i2: int, you: usize, other: usize, yid: u64, oid: Option<u64>|
        0 <= i2 < cs1.len() implies (#[trigger] holds_record(cs1, i2, true, you, other, yid, oid)
        <==> (ev_names(evs.take(t + 1), true, you, other) && owns_seq(es, i2, you) && yid
        == es[i2].id && oid == resolved_seq(es, other))) by {
        vstd::seq_lib::lemma_seq_contains_after_push(
            evs.take(t),
            ev,
            ContactEvent::Started { a: you, b: other },
        );
        vstd::seq_lib::lemma_seq_contains_after_push(
            evs.take(t),
            ev,
            ContactEvent::Started { a: other, b: you },
        );
        vstd::seq_lib::lemma_seq_contains_after_push(
            evs.take(t),
            ev,
            ContactEvent::Stopped { a: you, b: other },
        );
        vstd::seq_lib::lemma_seq_contains_after_push(
            evs.take(t),
            ev,
            ContactEvent::Stopped { a: other, b: you },
        );
        assert(holds_record(cs0, i2, true, you, other, yid, oid) <==> (ev_names(
            evs.take(t),
            true,
            you,
            other,
        ) && owns_seq(es, i2, you) && yid == es[i2].id && oid == resolved_seq(es, other)));
        assert(holds_record(cs0, i2, false, you, other, yid, oid) <==> (ev_names(
            evs.take(t),
            false,
            you,
            other,
        ) && owns_seq(es, i2, you) && yid == es[i2].id && oid == resolved_seq(es, other)));
        if resolvable_seq(es, a) && i2 == owner_index_seq(es, a) {
            assert(owns_seq(es, i2, a));
            vstd::seq_lib::lemma_seq_contains_after_push(
                cs0[i2].contacts@,
                mk_record(started, a, b, es[i2].id, resolved_seq(es, b)),
                mk_record(true, you, other, yid, oid),
            );
            vstd::seq_lib::lemma_seq_contains_after_push(
                cs0[i2].contacts@,
                mk_record(started, a, b, es[i2].id, resolved_seq(es, b)),
                mk_record(false, you, other, yid, oid),
            );
        } else if resolvable_seq(es, b) && i2 == owner_index_seq(es, b) {
            assert(owns_seq(es, i2, b));
            vstd::seq_lib::lemma_seq_contains_after_push(
                cs0[i2].contacts@,
                mk_record(started, b, a, es[i2].id, resolved_seq(es, a)),
                mk_record(true, you, other, yid, oid),
            );
            vstd::seq_lib::lemma_seq_contains_after_push(
                cs0[i2].contacts@,
                mk_record(started, b, a, es[i2].id, resolved_seq(es, a)),
                mk_record(false, you, other, yid, oid),
            );
        } else {
            assert(cs1[i2] == cs0[i2]);
        }
        if owns_seq(es, i2, you) {
            if you == a {
                if resolvable_seq(es, a) {
                    assert(owns_seq(es, owner_index_seq(es, a), a));
                } else {
                    assert(false);
                }
            } else if you == b {
                if resolvable_seq(es, b) {
                    assert(owns_seq(es, owner_index_seq(es, b), b));
                } else {
                    assert(false);
                }
            }
        }
    }
    assert forall|i2: int, you: usize, other: usize, yid: u64, oid: Option<u64>|
        0 <= i2 < cs1.len() implies (#[trigger] holds_record(cs1, i2, false, you, other, yid, oid)
        <==> (ev_names(evs.take(t + 1), false, you, other) && owns_seq(es, i2, you) && yid
        == es[i2].id && oid == resolved_seq(es, other))) by {
        vstd::seq_lib::lemma_seq_contains_after_push(
            evs.take(t),
            ev,
            ContactEvent::Started { a: you, b: other },
        );
        vstd::seq_lib::lemma_seq_contains_after_push(
            evs.take(t),
            ev,
            ContactEvent::Started { a: other, b: you },
        );
        vstd::seq_lib::lemma_seq_contains_after_push(
            evs.take(t),
            ev,
            ContactEvent::Stopped { a: you, b: other },
        );
        vstd::seq_lib::lemma_seq_contains_after_push(
            evs.take(t),
            ev,
            ContactEvent::Stopped { a: other, b: you },
        );
        assert(holds_record(cs0, i2, true, you, other, yid, oid) <==> (ev_names(
            evs.take(t),
            true,
            you,
            other,
        ) && owns_seq(es, i2, you) && yid == es[i2].id && oid == resolved_seq(es, other)));
        assert(holds_record(cs0, i2, false, you, other, yid, oid) <==> (ev_names(
            evs.take(t),
            false,
            you,
            other,
        ) && owns_seq(es, i2, you) && yid == es[i2].id && oid == resolved_seq(es, other)));
        if resolvable_seq(es, a) && i2 == owner_index_seq(es, a) {
            assert(owns_seq(es, i2, a));
            vstd::seq_lib::lemma_seq_contains_after_push(
                cs0[i2].contacts@,
                mk_record(started, a, b, es[i2].id, resolved_seq(es, b)),
                mk_record(true, you, other, yid, oid),
            );
            vstd::seq_lib::lemma_seq_contains_after_push(
                cs0[i2].contacts@,
                mk_record(started, a, b, es[i2].id, resolved_seq(es, b)),
                mk_record(false, you, other, yid, oid),
            );
        } else if resolvable_seq(es, b) && i2 == owner_index_seq(es, b) {
            assert(owns_seq(es, i2, b));
            vstd::seq_lib::lemma_seq_contains_after_push(
                cs0[i2].contacts@,
                mk_record(started, b, a, es[i2].id, resolved_seq(es, a)),
                mk_record(true, you, other, yid, oid),
            );
            vstd::seq_lib::lemma_seq_contains_after_push(
                cs0[i2].contacts@,
                mk_record(started, b, a, es[i2].id, resolved_seq(es, a)),
                mk_record(false, you, other, yid, oid),
            );
        } else {
            assert(cs1[i2] == cs0[i2]);
        }
        if owns_seq(es, i2, you) {
            if you == a {
                if resolvable_seq(es, a) {
                    assert(owns_seq(es, owner_index_seq(es, a), a));
                } else {
                    assert(false);
                }
            } else if you == b {
                if resolvable_seq(es, b) {
                    assert(owns_seq(es, owner_index_seq(es, b), b));
                } else {
                    assert(false);
                }
            }
        }
    }
}

} // verus!
