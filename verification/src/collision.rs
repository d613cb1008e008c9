use vstd::prelude::*;

verus! {

broadcast use vstd::seq_lib::group_seq_properties;

use crate::math::abs_spec;
use crate::math::abs_i64;
use crate::vec2::Vec2;
use crate::vec2::in_coord_range;
use crate::vec2::is_axis_unit;

/// Coarse classification of a proxy, deciding which pairs are even
/// considered for contact.
#[derive(Clone, Copy, PartialEq, Eq, Structural, Debug)]
pub enum CollisionGroup {
    /// The ball group admits contacts with everything.
    Ball,
    /// The obstacle group admits contacts only with the ball group.
    Obstacle,
}

/// Collision geometry: a solid axis-aligned box, or a static half-plane
/// whose boundary passes through the proxy's position and whose solid side
/// lies opposite the outward normal.
#[derive(Clone, Copy, PartialEq, Eq, Structural, Debug)]
pub enum Shape {
    Rect { half_w: i64, half_h: i64 },
    HalfPlane { normal: Vec2 },
}

/// One collidable proxy: shape, current position, group, and whether the
/// owning entity still exists.  Removed proxies keep their slot so that
/// handles stay stable, but take part in no further queries.
#[derive(Clone, Copy, PartialEq, Eq, Structural, Debug)]
pub struct Proxy {
    pub pos: Vec2,
    pub shape: Shape,
    pub group: CollisionGroup,
    pub live: bool,
}

/// A raw per-step event: the pair `(a, b)` of handles began or ceased to
/// touch, with `a < b`.
#[derive(Clone, Copy, PartialEq, Eq, Structural, Debug)]
pub enum ContactEvent {
    Started { a: usize, b: usize },
    Stopped { a: usize, b: usize },
}

/// Half extents positive and small enough for exact arithmetic; half-plane
/// normals are axis-aligned unit vectors.
pub open spec fn shape_wf(s: Shape) -> bool {
    match s {
        Shape::Rect { half_w, half_h } => 0 < half_w <= 1_000_000 && 0 < half_h <= 1_000_000,
        Shape::HalfPlane { normal } => is_axis_unit(normal),
    }
}

pub open spec fn proxy_wf(p: Proxy) -> bool {
    shape_wf(p.shape) && in_coord_range(p.pos)
}

/// Whether a proxy of group `g` admits contacts with one of group `h`.
pub open spec fn admits(g: CollisionGroup, h: CollisionGroup) -> bool {
    match g {
        CollisionGroup::Ball => true,
        CollisionGroup::Obstacle => h == CollisionGroup::Ball,
    }
}

/// A pair is evaluated only if at least one side admits the other's group;
/// with the two groups above, obstacle pairs are excluded.
pub open spec fn pair_admitted(p: Proxy, q: Proxy) -> bool {
    admits(p.group, q.group) || admits(q.group, p.group)
}

/// The extent of a box along an axis-aligned unit direction.
pub open spec fn rect_extent(half_w: i64, half_h: i64, n: Vec2) -> int {
    half_w * abs_spec(n.x as int) + half_h * abs_spec(n.y as int)
}

/// Exact geometric contact, with zero margin: touching counts as overlap.
/// Two half-planes are never reported in contact.
pub open spec fn overlaps(p: Proxy, q: Proxy) -> bool {
    match (p.shape, q.shape) {
        (Shape::Rect { half_w: pw, half_h: ph }, Shape::Rect { half_w: qw, half_h: qh }) => {
            &&& abs_spec(p.pos.x - q.pos.x) <= pw + qw
            &&& abs_spec(p.pos.y - q.pos.y) <= ph + qh
        },
        (Shape::Rect { half_w, half_h }, Shape::HalfPlane { normal }) => {
            (p.pos.x - q.pos.x) * normal.x + (p.pos.y - q.pos.y) * normal.y
                <= rect_extent(half_w, half_h, normal)
        },
        (Shape::HalfPlane { normal }, Shape::Rect { half_w, half_h }) => {
            (q.pos.x - p.pos.x) * normal.x + (q.pos.y - p.pos.y) * normal.y
                <= rect_extent(half_w, half_h, normal)
        },
        (Shape::HalfPlane { .. }, Shape::HalfPlane { .. }) => false,
    }
}

/// Sign of the direction from `a` toward `b` along one axis, with ties
/// resolved toward the positive direction.
pub open spec fn toward(a: int, b: int) -> int {
    if b >= a {
        1
    } else {
        -1
    }
}

/// X component of the contact normal between overlapping proxies `p` and
/// `q`, oriented outward from `p`'s surface (from `p` toward `q`).  For a
/// box-box contact the axis of least penetration is chosen, the x axis on a
/// tie.
pub open spec fn normal_x_spec(p: Proxy, q: Proxy) -> int {
    match (p.shape, q.shape) {
        (Shape::Rect { half_w: pw, half_h: ph }, Shape::Rect { half_w: qw, half_h: qh }) => {
            if (pw + qw) - abs_spec(p.pos.x - q.pos.x) <= (ph + qh) - abs_spec(p.pos.y - q.pos.y) {
                toward(p.pos.x as int, q.pos.x as int)
            } else {
                0
            }
        },
        (Shape::Rect { .. }, Shape::HalfPlane { normal }) => -normal.x,
        (Shape::HalfPlane { normal }, Shape::Rect { .. }) => normal.x as int,
        (Shape::HalfPlane { .. }, Shape::HalfPlane { .. }) => 0,
    }
}

/// See `normal_x_spec`.
pub open spec fn normal_y_spec(p: Proxy, q: Proxy) -> int {
    match (p.shape, q.shape) {
        (Shape::Rect { half_w: pw, half_h: ph }, Shape::Rect { half_w: qw, half_h: qh }) => {
            if (pw + qw) - abs_spec(p.pos.x - q.pos.x) <= (ph + qh) - abs_spec(p.pos.y - q.pos.y) {
                0
            } else {
                toward(p.pos.y as int, q.pos.y as int)
            }
        },
        (Shape::Rect { .. }, Shape::HalfPlane { normal }) => -normal.y,
        (Shape::HalfPlane { normal }, Shape::Rect { .. }) => normal.y as int,
        (Shape::HalfPlane { .. }, Shape::HalfPlane { .. }) => 0,
    }
}

/// Whether the normal between `p` and `q` is defined: some side is a box.
pub open spec fn normal_defined(p: Proxy, q: Proxy) -> bool {
    !(p.shape is HalfPlane && q.shape is HalfPlane)
}

/// Owns every proxy and the set of currently touching admitted pairs, as of
/// the last `step`.  Handles are indices into `proxies` and are never
/// reused.
pub struct CollisionWorld {
    pub proxies: Vec<Proxy>,
    pub contacts: Vec<(usize, usize)>,
}

impl CollisionWorld {
    /// Every proxy is well formed; every remembered pair is ordered and
    /// in range, and no pair is remembered twice.
    pub open spec fn wf(self) -> bool {
        &&& forall|i: int|
            0 <= i < self.proxies@.len() ==> proxy_wf(#[trigger] self.proxies@[i])
        &&& forall|k: int|
            0 <= k < self.contacts@.len() ==> (#[trigger] self.contacts@[k]).0
                < self.contacts@[k].1 < self.proxies@.len()
        &&& forall|k1: int, k2: int|
            0 <= k1 < k2 < self.contacts@.len() ==> #[trigger] self.contacts@[k1]
                != #[trigger] self.contacts@[k2]
    }

    /// The ordered pair `(i, j)` is admitted, live, and geometrically
    /// overlapping: the pairs a step reports as being in contact.
    pub open spec fn active_overlap(self, i: int, j: int) -> bool {
        &&& 0 <= i < j < self.proxies@.len()
        &&& self.proxies@[i].live
        &&& self.proxies@[j].live
        &&& pair_admitted(self.proxies@[i], self.proxies@[j])
        &&& overlaps(self.proxies@[i], self.proxies@[j])
    }

    /// The pair `(i, j)` was in contact as of the last step.
    pub open spec fn in_contact(self, i: int, j: int) -> bool {
        self.contacts@.contains((i as usize, j as usize))
    }

    pub fn new() -> (w: CollisionWorld)
        ensures
            w.wf(),
            w.proxies@.len() == 0,
            w.contacts@.len() == 0,
    {
        CollisionWorld { proxies: Vec::new(), contacts: Vec::new() }
    }

    /// Adds a proxy and returns its handle, stable for the proxy's
    /// lifetime.
    pub fn add_proxy(&mut self, pos: Vec2, shape: Shape, group: CollisionGroup) -> (h: usize)
        requires
            old(self).wf(),
            shape_wf(shape),
            in_coord_range(pos),
            old(self).proxies@.len() < 1_000_000,
        ensures
            final(self).wf(),
            h == old(self).proxies@.len(),
            final(self).proxies@ == old(self).proxies@.push(
                Proxy { pos, shape, group, live: true },
            ),
            final(self).contacts@ == old(self).contacts@,
    {
        let h = self.proxies.len();
        self.proxies.push(Proxy { pos, shape, group, live: true });
        h
    }

    /// Moves the proxy `h`; shape, group and liveness stay.
    pub fn update_proxy(&mut self, h: usize, pos: Vec2)
        requires
            old(self).wf(),
            h < old(self).proxies@.len(),
            in_coord_range(pos),
        ensures
            final(self).wf(),
            final(self).proxies@.len() == old(self).proxies@.len(),
            final(self).proxies@[h as int] == (Proxy {
                pos,
                ..old(self).proxies@[h as int]
            }),
            forall|i: int|
                0 <= i < old(self).proxies@.len() && i != h ==> final(self).proxies@[i] == old(
                    self,
                ).proxies@[i],
            final(self).contacts@ == old(self).contacts@,
    {
        let p = Proxy { pos, ..self.proxies[h] };
        self.proxies.set(h, p);
    }

    /// Removes the proxy `h` from all further queries; its slot and handle
    /// are not reused.
    pub fn remove_proxy(&mut self, h: usize)
        requires
            old(self).wf(),
            h < old(self).proxies@.len(),
        ensures
            final(self).wf(),
            final(self).proxies@.len() == old(self).proxies@.len(),
            final(self).proxies@[h as int] == (Proxy {
                live: false,
                ..old(self).proxies@[h as int]
            }),
            forall|i: int|
                0 <= i < old(self).proxies@.len() && i != h ==> final(self).proxies@[i] == old(
                    self,
                ).proxies@[i],
            final(self).contacts@ == old(self).contacts@,
    {
        let p = Proxy { live: false, ..self.proxies[h] };
        self.proxies.set(h, p);
    }
}

/// The event list holds a started event for the pair `(a, b)`.
pub open spec fn has_started(evs: Seq<ContactEvent>, a: usize, b: usize) -> bool {
    evs.contains(ContactEvent::Started { a, b })
}

/// The event list holds a stopped event for the pair `(a, b)`.
pub open spec fn has_stopped(evs: Seq<ContactEvent>, a: usize, b: usize) -> bool {
    evs.contains(ContactEvent::Stopped { a, b })
}

impl CollisionWorld {
    /// The unordered contact query: `a` and `b` are distinct live proxies
    /// whose pair is admitted and whose shapes touch.
    pub open spec fn touching(self, a: int, b: int) -> bool {
        &&& 0 <= a < self.proxies@.len()
        &&& 0 <= b < self.proxies@.len()
        &&& a != b
        &&& self.proxies@[a].live
        &&& self.proxies@[b].live
        &&& pair_admitted(self.proxies@[a], self.proxies@[b])
        &&& overlaps(self.proxies@[a], self.proxies@[b])
    }

    /// Recomputes which admitted pairs touch, remembers them, and reports
    /// the difference against the previous step: a started event for every
    /// pair that now touches and did not before, a stopped event for every
    /// pair that did and no longer does.  Each pair is reported once, with
    /// its handles in increasing order.
    pub fn step(&mut self) -> (events: Vec<ContactEvent>)
        requires
            old(self).wf(),
        ensures
            final(self).wf(),
            final(self).proxies@ == old(self).proxies@,
            forall|a: usize, b: usize|
                final(self).in_contact(a as int, b as int) <==> old(self).active_overlap(
                    a as int,
                    b as int,
                ),
            forall|a: usize, b: usize|
                has_started(events@, a, b) <==> (old(self).active_overlap(a as int, b as int)
                    && !old(self).in_contact(a as int, b as int)),
            forall|a: usize, b: usize|
                has_stopped(events@, a, b) <==> (old(self).in_contact(a as int, b as int)
                    && !old(self).active_overlap(a as int, b as int)),
            forall|k1: int, k2: int|
                0 <= k1 < k2 < events@.len() ==> events@[k1] != events@[k2],
    {
        let n = self.proxies.len();
        let mut current: Vec<(usize, usize)> = Vec::new();
        let mut i: usize = 0;
        while i < n
            invariant
                *self == *old(self),
                self.wf(),
                n == self.proxies@.len(),
                i <= n,
                forall|a: usize, b: usize|
                    #[trigger] current@.contains((a, b)) <==> (self.active_overlap(
                        a as int,
                        b as int,
                    ) && (a as int) < i),
                forall|k1: int, k2: int|
                    0 <= k1 < k2 < current@.len() ==> current@[k1] != current@[k2],
            decreases n - i,
        {
            let mut j: usize = i + 1;
            while j < n
                invariant
                    *self == *old(self),
                    self.wf(),
                    n == self.proxies@.len(),
                    i < n,
                    i < j <= n,
                    forall|a: usize, b: usize|
                        #[trigger] current@.contains((a, b)) <==> (self.active_overlap(
                            a as int,
                            b as int,
                        ) && ((a as int) < i || (a == i && (b as int) < j))),
                    forall|k1: int, k2: int|
                        0 <= k1 < k2 < current@.len() ==> current@[k1] != current@[k2],
                decreases n - j,
            {
                let pi = self.proxies[i];
                let pj = self.proxies[j];
                if pi.live && pj.live && pair_admitted_exec(&pi, &pj) && proxies_overlap(
                    &pi,
                    &pj,
                ) {
                    proof {
                        assert(!current@.contains((i, j)));
                    }
                    current.push((i, j));
                }
                j = j + 1;
            }
            i = i + 1;
        }
        let m = current.len();
        let mut events: Vec<ContactEvent> = Vec::new();
        let mut k: usize = 0;
        while k < m
            invariant
                *self == *old(self),
                self.wf(),
                m == current@.len(),
                k <= m,
                forall|a: usize, b: usize|
                    #[trigger] current@.contains((a, b)) <==> self.active_overlap(
                        a as int,
                        b as int,
                    ),
                forall|k1: int, k2: int|
                    0 <= k1 < k2 < current@.len() ==> current@[k1] != current@[k2],
                forall|a: usize, b: usize|
                    has_started(events@, a, b) <==> (current@.take(k as int).contains((a, b))
                        && !self.contacts@.contains((a, b))),
                forall|a: usize, b: usize| !has_stopped(events@, a, b),
                forall|k1: int, k2: int|
                    0 <= k1 < k2 < events@.len() ==> events@[k1] != events@[k2],
            decreases m - k,
        {
            let pair = current[k];
            proof {
                assert(current@.contains((pair.0, pair.1)));
                assert(current@.take(k as int + 1) =~= current@.take(k as int).push(
                    current@[k as int],
                ));
                if current@.take(k as int).contains((pair.0, pair.1)) {
                    let t = choose|t: int|
                        0 <= t < k && current@.take(k as int)[t] == (pair.0, pair.1);
                    assert(current@[t] == current@[k as int]);
                }
            }
            let ghost evs0 = events@;
            if !contains_pair(&self.contacts, pair.0, pair.1) {
                proof {
                    assert(!has_started(events@, pair.0, pair.1));
                }
                events.push(ContactEvent::Started { a: pair.0, b: pair.1 });
                proof {
                    assert forall|a2: usize, b2: usize|
                        (has_started(events@, a2, b2) <==> (current@.take(k as int + 1).contains(
                            (a2, b2),
                        ) && !self.contacts@.contains((a2, b2)))) && !has_stopped(
                        events@,
                        a2,
                        b2,
                    ) by {
                        vstd::seq_lib::lemma_seq_contains_after_push(
                            evs0,
                            ContactEvent::Started { a: pair.0, b: pair.1 },
                            ContactEvent::Started { a: a2, b: b2 },
                        );
                        vstd::seq_lib::lemma_seq_contains_after_push(
                            evs0,
                            ContactEvent::Started { a: pair.0, b: pair.1 },
                            ContactEvent::Stopped { a: a2, b: b2 },
                        );
                        vstd::seq_lib::lemma_seq_contains_after_push(
                            current@.take(k as int),
                            (pair.0, pair.1),
                            (a2, b2),
                        );
                        assert(has_started(evs0, a2, b2) <==> (current@.take(k as int).contains(
                            (a2, b2),
                        ) && !self.contacts@.contains((a2, b2))));
                        assert(!has_stopped(evs0, a2, b2));
                        assert(has_started(events@, a2, b2) <==> ((a2, b2) == pair
                            || has_started(evs0, a2, b2)));
                        assert(current@.take(k as int + 1).contains((a2, b2)) <==> ((a2, b2)
                            == pair || current@.take(k as int).contains((a2, b2))));
                    }
                }
            } else {
                proof {
                    assert forall|a2: usize, b2: usize|
                        has_started(events@, a2, b2) <==> (current@.take(k as int + 1).contains(
                            (a2, b2),
                        ) && !self.contacts@.contains((a2, b2))) by {
                        vstd::seq_lib::lemma_seq_contains_after_push(
                            current@.take(k as int),
                            (pair.0, pair.1),
                            (a2, b2),
                        );
                    }
                }
            }
            k = k + 1;
        }
        proof {
            assert(current@.take(m as int) =~= current@);
        }
        let cl = self.contacts.len();
        k = 0;
        while k < cl
            invariant
                *self == *old(self),
                self.wf(),
                m == current@.len(),
                cl == self.contacts@.len(),
                k <= cl,
                forall|a: usize, b: usize|
                    #[trigger] current@.contains((a, b)) <==> self.active_overlap(
                        a as int,
                        b as int,
                    ),
                forall|k1: int, k2: int|
                    0 <= k1 < k2 < current@.len() ==> current@[k1] != current@[k2],
                forall|a: usize, b: usize|
                    has_started(events@, a, b) <==> (current@.contains((a, b))
                        && !self.contacts@.contains((a, b))),
                forall|a: usize, b: usize|
                    has_stopped(events@, a, b) <==> (self.contacts@.take(k as int).contains(
                        (a, b),
                    ) && !current@.contains((a, b))),
                forall|k1: int, k2: int|
                    0 <= k1 < k2 < events@.len() ==> events@[k1] != events@[k2],
            decreases cl - k,
        {
            let pair = self.contacts[k];
            proof {
                assert(self.contacts@.contains((pair.0, pair.1)));
                assert(self.contacts@.take(k as int + 1) =~= self.contacts@.take(k as int).push(
                    self.contacts@[k as int],
                ));
                if self.contacts@.take(k as int).contains((pair.0, pair.1)) {
                    let t = choose|t: int|
                        0 <= t < k && self.contacts@.take(k as int)[t] == (pair.0, pair.1);
                    assert(self.contacts@[t] == self.contacts@[k as int]);
                }
            }
            let ghost evs0 = events@;
            if !contains_pair(&current, pair.0, pair.1) {
                proof {
                    assert(!has_stopped(events@, pair.0, pair.1));
                }
                events.push(ContactEvent::Stopped { a: pair.0, b: pair.1 });
                proof {
                    assert forall|a2: usize, b2: usize|
                        has_started(events@, a2, b2) <==> (current@.contains((a2, b2))
                            && !self.contacts@.contains((a2, b2))) by {
                        vstd::seq_lib::lemma_seq_contains_after_push(
                            evs0,
                            ContactEvent::Stopped { a: pair.0, b: pair.1 },
                            ContactEvent::Started { a: a2, b: b2 },
                        );
                        assert(has_started(evs0, a2, b2) <==> (current@.contains((a2, b2))
                            && !self.contacts@.contains((a2, b2))));
                    }
                    assert forall|a2: usize, b2: usize|
                        has_stopped(events@, a2, b2) <==> (self.contacts@.take(
                            k as int + 1,
                        ).contains((a2, b2)) && !current@.contains((a2, b2))) by {
                        vstd::seq_lib::lemma_seq_contains_after_push(
                            evs0,
                            ContactEvent::Stopped { a: pair.0, b: pair.1 },
                            ContactEvent::Stopped { a: a2, b: b2 },
                        );
                        vstd::seq_lib::lemma_seq_contains_after_push(
                            evs0,
                            ContactEvent::Stopped { a: pair.0, b: pair.1 },
                            ContactEvent::Started { a: a2, b: b2 },
                        );
                        vstd::seq_lib::lemma_seq_contains_after_push(
                            self.contacts@.take(k as int),
                            (pair.0, pair.1),
                            (a2, b2),
                        );
                        assert(has_started(evs0, a2, b2) <==> (current@.contains((a2, b2))
                            && !self.contacts@.contains((a2, b2))));
                        assert(has_stopped(evs0, a2, b2) <==> (self.contacts@.take(
                            k as int,
                        ).contains((a2, b2)) && !current@.contains((a2, b2))));
                        assert(has_stopped(events@, a2, b2) <==> ((a2, b2) == pair || has_stopped(
                            evs0,
                            a2,
                            b2,
                        )));
                        assert(has_started(events@, a2, b2) <==> has_started(evs0, a2, b2));
                        assert(self.contacts@.take(k as int + 1).contains((a2, b2)) <==> ((a2, b2)
                            == pair || self.contacts@.take(k as int).contains((a2, b2))));
                    }
                }
            } else {
                proof {
                    assert forall|a2: usize, b2: usize|
                        has_stopped(events@, a2, b2) <==> (self.contacts@.take(
                            k as int + 1,
                        ).contains((a2, b2)) && !current@.contains((a2, b2))) by {
                        vstd::seq_lib::lemma_seq_contains_after_push(
                            self.contacts@.take(k as int),
                            (pair.0, pair.1),
                            (a2, b2),
                        );
                        assert(has_stopped(events@, a2, b2) <==> (self.contacts@.take(
                            k as int,
                        ).contains((a2, b2)) && !current@.contains((a2, b2))));
                    }
                }
            }
            k = k + 1;
        }
        proof {
            assert(self.contacts@.take(cl as int) =~= self.contacts@);
            assert forall|t: int| 0 <= t < current@.len() implies ((#[trigger] current@[t]).0
                < current@[t].1 < self.proxies@.len()) by {
                let x = current@[t].0;
                let y = current@[t].1;
                assert(current@[t] == (x, y));
                assert(current@.contains((x, y)));
            }
        }
        self.contacts = current;
        events
    }

    /// The surface normal at the deepest contact point between `a` and `b`,
    /// oriented outward from `a`'s surface, or nothing if the pair is not
    /// currently in contact (or both sides are half-planes, which have no
    /// deepest point).
    pub fn contact_normal(&self, a: usize, b: usize) -> (r: Option<Vec2>)
        requires
            self.wf(),
            a < self.proxies@.len(),
            b < self.proxies@.len(),
        ensures
            match r {
                Some(nv) => {
                    &&& self.touching(a as int, b as int)
                    &&& normal_defined(self.proxies@[a as int], self.proxies@[b as int])
                    &&& nv.x == normal_x_spec(self.proxies@[a as int], self.proxies@[b as int])
                    &&& nv.y == normal_y_spec(self.proxies@[a as int], self.proxies@[b as int])
                    &&& is_axis_unit(nv)
                },
                None => !(self.touching(a as int, b as int) && normal_defined(
                    self.proxies@[a as int],
                    self.proxies@[b as int],
                )),
            },
    {
        if a == b {
            return None;
        }
        let pa = self.proxies[a];
        let pb = self.proxies[b];
        if !(pa.live && pb.live && pair_admitted_exec(&pa, &pb) && proxies_overlap(&pa, &pb)) {
            return None;
        }
        match (&pa.shape, &pb.shape) {
            (Shape::Rect { half_w: pw, half_h: ph }, Shape::Rect { half_w: qw, half_h: qh }) => {
                let dx = abs_i64(pa.pos.x - pb.pos.x);
                let dy = abs_i64(pa.pos.y - pb.pos.y);
                if (*pw + *qw) - dx <= (*ph + *qh) - dy {
                    if pb.pos.x >= pa.pos.x {
                        Some(Vec2 { x: 1, y: 0 })
                    } else {
                        Some(Vec2 { x: -1, y: 0 })
                    }
                } else {
                    if pb.pos.y >= pa.pos.y {
                        Some(Vec2 { x: 0, y: 1 })
                    } else {
                        Some(Vec2 { x: 0, y: -1 })
                    }
                }
            },
            (Shape::Rect { .. }, Shape::HalfPlane { normal }) => {
                Some(Vec2 { x: -normal.x, y: -normal.y })
            },
            (Shape::HalfPlane { normal }, Shape::Rect { .. }) => {
                Some(Vec2 { x: normal.x, y: normal.y })
            },
            (Shape::HalfPlane { .. }, Shape::HalfPlane { .. }) => None,
        }
    }
}

/// Whether at least one side admits the other: the only pairs the world
/// evaluates.
pub fn pair_admitted_exec(p: &Proxy, q: &Proxy) -> (r: bool)
    ensures
        r == pair_admitted(*p, *q),
{
    match (p.group, q.group) {
        (CollisionGroup::Obstacle, CollisionGroup::Obstacle) => false,
        _ => true,
    }
}

/// Linear membership test on a pair list.
fn contains_pair(v: &Vec<(usize, usize)>, a: usize, b: usize) -> (r: bool)
    ensures
        r == v@.contains((a, b)),
{
    let mut k: usize = 0;
    while k < v.len()
        invariant
            k <= v@.len(),
            forall|t: int| 0 <= t < k ==> v@[t] != (a, b),
        decreases v@.len() - k,
    {
        let pair = v[k];
        if pair.0 == a && pair.1 == b {
            proof {
                assert(v@[k as int] == (a, b));
            }
            return true;
        }
        k = k + 1;
    }
    false
}

/// Exact contact test between two well-formed proxies.
pub fn proxies_overlap(p: &Proxy, q: &Proxy) -> (r: bool)
    requires
        proxy_wf(*p),
        proxy_wf(*q),
    ensures
        r == overlaps(*p, *q),
{
    match (&p.shape, &q.shape) {
        (Shape::Rect { half_w: pw, half_h: ph }, Shape::Rect { half_w: qw, half_h: qh }) => {
            let dx = abs_i64(p.pos.x - q.pos.x);
            let dy = abs_i64(p.pos.y - q.pos.y);
            dx <= *pw + *qw && dy <= *ph + *qh
        },
        (Shape::Rect { half_w, half_h }, Shape::HalfPlane { normal }) => {
            rect_halfplane_touch(p.pos, *half_w, *half_h, q.pos, *normal)
        },
        (Shape::HalfPlane { normal }, Shape::Rect { half_w, half_h }) => {
            rect_halfplane_touch(q.pos, *half_w, *half_h, p.pos, *normal)
        },
        (Shape::HalfPlane { .. }, Shape::HalfPlane { .. }) => false,
    }
}

/// The single-owned simulation context threaded through each tick: the
/// collision world plus the two interaction groups proxies are created in.
pub struct CollisionContext {
    pub ball_groups: CollisionGroup,
    pub other_groups: CollisionGroup,
    pub world: CollisionWorld,
}

impl Default for CollisionContext {
    /// An empty world whose ball group admits everything and whose obstacle
    /// group admits only balls.
    fn default() -> (ctx: CollisionContext)
        ensures
            ctx.ball_groups == CollisionGroup::Ball,
            ctx.other_groups == CollisionGroup::Obstacle,
            ctx.world.wf(),
            ctx.world.proxies@.len() == 0,
            ctx.world.contacts@.len() == 0,
    {
        CollisionContext {
            ball_groups: CollisionGroup::Ball,
            other_groups: CollisionGroup::Obstacle,
            world: CollisionWorld::new(),
        }
    }
}

/// The proxy of the wall half-plane whose boundary passes through
/// `(px, py)` with inward normal `(nx, ny)`.
pub open spec fn wall_proxy(px: int, py: int, nx: int, ny: int) -> Proxy {
    Proxy {
        pos: Vec2 { x: px as i64, y: py as i64 },
        shape: Shape::HalfPlane { normal: Vec2 { x: nx as i64, y: ny as i64 } },
        group: CollisionGroup::Obstacle,
        live: true,
    }
}

/// Builds the collision context holding the three static arena boundaries:
/// the left, top and right walls, as half-planes in the obstacle group whose
/// normals point into the arena.  The bottom stays open.
pub fn initialize_collision_context() -> (ctx: CollisionContext)
    ensures
        ctx.ball_groups == CollisionGroup::Ball,
        ctx.other_groups == CollisionGroup::Obstacle,
        ctx.world.wf(),
        ctx.world.proxies@.len() == 3,
        ctx.world.proxies@[0] == wall_proxy(0, 360, 1, 0),
        ctx.world.proxies@[1] == wall_proxy(640, 720, 0, -1),
        ctx.world.proxies@[2] == wall_proxy(1280, 360, -1, 0),
        ctx.world.contacts@.len() == 0,
{
    let mut ctx = CollisionContext::default();
    let plane_left = Shape::HalfPlane { normal: Vec2 { x: 1, y: 0 } };
    let plane_top = Shape::HalfPlane { normal: Vec2 { x: 0, y: -1 } };
    let plane_right = Shape::HalfPlane { normal: Vec2 { x: -1, y: 0 } };

    let other_groups = ctx.other_groups;
    ctx.world.add_proxy(
        Vec2 { x: 0, y: crate::game::ARENA_HEIGHT / 2 },
        plane_left,
        other_groups,
    );
    ctx.world.add_proxy(
        Vec2 { x: crate::game::ARENA_WIDTH / 2, y: crate::game::ARENA_HEIGHT },
        plane_top,
        other_groups,
    );
    ctx.world.add_proxy(
        Vec2 { x: crate::game::ARENA_WIDTH, y: crate::game::ARENA_HEIGHT / 2 },
        plane_right,
        other_groups,
    );
    ctx
}

/// Whether the box at `c` reaches the half-plane through `pp` with outward
/// normal `n`: its support point along `-n` is on or behind the boundary.
fn rect_halfplane_touch(c: Vec2, half_w: i64, half_h: i64, pp: Vec2, n: Vec2) -> (r: bool)
    requires
        in_coord_range(c),
        in_coord_range(pp),
        0 < half_w <= 1_000_000,
        0 < half_h <= 1_000_000,
        is_axis_unit(n),
    ensures
        r == ((c.x - pp.x) * n.x + (c.y - pp.y) * n.y <= rect_extent(half_w, half_h, n)),
{
    proof {
        assert(forall|d: int, u: int|
            -2_000_000_000 <= d <= 2_000_000_000 && -1 <= u <= 1 ==> -2_000_000_000
                <= #[trigger] (d * u) <= 2_000_000_000) by (nonlinear_arith);
    }
    let sx = (c.x - pp.x) * n.x;
    let sy = (c.y - pp.y) * n.y;
    let ex = half_w * abs_i64(n.x);
    let ey = half_h * abs_i64(n.y);
    sx + sy <= ex + ey
}

} // verus!
