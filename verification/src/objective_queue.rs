//! The objective queue: objectives keyed by room, each with a priority, an expiry
//! and a claim, from which a squad takes the best one left.

use crate::colony::lemma_filter_take;
use vstd::prelude::*;

verus! {

/// A room of the grid that objectives and squads live on.
pub type V1Room = (i32, i32);

/// An objective. Its priority is an integer that orders as the priority does.
#[derive(Clone, Copy, Debug)]
pub struct V1Objective {
    pub id: u32,
    pub room: V1Room,
    pub priority: i32,
    pub expires_at: u32,
    pub claimed: bool,
}

/// The queue's state.
#[verifier::ext_equal]
pub struct QueueView {
    pub objectives: Seq<V1Objective>,
    pub next_id: u32,
}

/// Where the first objective at a room stands.
pub open spec fn at_room(objs: Seq<V1Objective>, room: V1Room) -> Option<int>
    decreases objs.len(),
{
    if objs.len() == 0 {
        None
    } else {
        match at_room(objs.drop_last(), room) {
            Some(i) => Some(i),
            None => if objs.last().room == room {
                Some(objs.len() - 1)
            } else {
                None
            },
        }
    }
}

/// Still wanted at a tick: not expired, or claimed.
pub open spec fn wanted_at(now: u32) -> spec_fn(V1Objective) -> bool {
    |o: V1Objective| o.expires_at > now || o.claimed
}

pub open spec fn other_than(id: u32) -> spec_fn(V1Objective) -> bool {
    |o: V1Objective| o.id != id
}

/// Free to take for a squad that must not take `exclude`.
pub open spec fn takeable(o: V1Objective, exclude: u32) -> bool {
    !o.claimed && o.id != exclude
}

/// `a` is taken before `b`: a higher priority, or the same and an older id.
pub open spec fn outranks(a: V1Objective, b: V1Objective) -> bool {
    a.priority > b.priority || (a.priority == b.priority && a.id < b.id)
}

/// The best objective to take.
pub open spec fn best_of(objs: Seq<V1Objective>, exclude: u32) -> Option<V1Objective>
    decreases objs.len(),
{
    if objs.len() == 0 {
        None
    } else {
        let o = objs.last();
        match best_of(objs.drop_last(), exclude) {
            None => if takeable(o, exclude) {
                Some(o)
            } else {
                None
            },
            Some(b) => if takeable(o, exclude) && outranks(o, b) {
                Some(o)
            } else {
                Some(b)
            },
        }
    }
}

pub open spec fn with_claim(objs: Seq<V1Objective>, id: u32, claimed: bool) -> Seq<V1Objective> {
    Seq::new(
        objs.len(),
        |i: int|
            if objs[i].id == id {
                V1Objective { claimed, ..objs[i] }
            } else {
                objs[i]
            },
    )
}

impl QueueView {
    pub open spec fn empty() -> QueueView {
        QueueView { objectives: seq![], next_id: 0 }
    }

    /// Ids and rooms occur once, and ids are below the next one.
    pub open spec fn wf(self) -> bool {
        &&& forall|i: int|
            0 <= i < self.objectives.len() ==> (#[trigger] self.objectives[i]).id < self.next_id
        &&& forall|i: int, j: int|
            0 <= i < j < self.objectives.len() ==> (#[trigger] self.objectives[i]).id != (
            #[trigger] self.objectives[j]).id
        &&& forall|i: int, j: int|
            0 <= i < j < self.objectives.len() ==> (#[trigger] self.objectives[i]).room != (
            #[trigger] self.objectives[j]).room
    }

    pub open spec fn has(self, id: u32) -> bool {
        exists|i: int| 0 <= i < self.objectives.len() && (#[trigger] self.objectives[i]).id == id
    }

    /// The objective with this id.
    pub open spec fn get(self, id: u32) -> Option<V1Objective> {
        if self.has(id) {
            Some(
                self.objectives[choose|i: int|
                    0 <= i < self.objectives.len() && (#[trigger] self.objectives[i]).id == id],
            )
        } else {
            None
        }
    }

    /// An objective at the room is refreshed, or a new one appended.
    pub open spec fn requested(self, room: V1Room, priority: i32, now: u32, ttl: u32) -> QueueView {
        let expires_at = (now + ttl) as u32;
        match at_room(self.objectives, room) {
            Some(i) => {
                let o = self.objectives[i];
                QueueView {
                    objectives: self.objectives.update(
                        i,
                        V1Objective {
                            priority: if priority > o.priority {
                                priority
                            } else {
                                o.priority
                            },
                            expires_at: if expires_at > o.expires_at {
                                expires_at
                            } else {
                                o.expires_at
                            },
                            ..o
                        },
                    ),
                    ..self
                }
            },
            None => QueueView {
                objectives: self.objectives.push(
                    V1Objective { id: self.next_id, room, priority, expires_at, claimed: false },
                ),
                next_id: (self.next_id + 1) as u32,
            },
        }
    }

    /// The id that a request returns.
    pub open spec fn requested_id(self, room: V1Room) -> u32 {
        match at_room(self.objectives, room) {
            Some(i) => self.objectives[i].id,
            None => self.next_id,
        }
    }

    pub open spec fn expired(self, now: u32) -> QueueView {
        QueueView { objectives: self.objectives.filter(wanted_at(now)), ..self }
    }

    pub open spec fn withdrawn(self, id: u32) -> QueueView {
        QueueView { objectives: self.objectives.filter(other_than(id)), ..self }
    }

    pub open spec fn claimed(self, id: u32) -> QueueView {
        QueueView { objectives: with_claim(self.objectives, id, true), ..self }
    }

    pub open spec fn released(self, id: u32) -> QueueView {
        QueueView { objectives: with_claim(self.objectives, id, false), ..self }
    }

    pub open spec fn best_unclaimed(self, exclude: u32) -> Option<u32> {
        match best_of(self.objectives, exclude) {
            Some(o) => Some(o.id),
            None => None,
        }
    }
}

// ── Lemmas ─────────────────────────────────────────────────────────────────

pub proof fn lemma_at_room(objs: Seq<V1Objective>, room: V1Room)
    ensures
        match at_room(objs, room) {
            Some(i) => 0 <= i < objs.len() && objs[i].room == room,
            None => forall|j: int| 0 <= j < objs.len() ==> (#[trigger] objs[j]).room != room,
        },
    decreases objs.len(),
{
    if objs.len() > 0 {
        let front = objs.drop_last();
        lemma_at_room(front, room);
        assert forall|j: int| 0 <= j < front.len() implies front[j] == #[trigger] objs[j] by {}
    }
}

proof fn lemma_at_room_take(objs: Seq<V1Objective>, room: V1Room, i: int)
    requires
        0 <= i < objs.len(),
        objs[i].room == room,
        forall|j: int| 0 <= j < i ==> (#[trigger] objs[j]).room != room,
    ensures
        at_room(objs, room) == Some(i),
    decreases objs.len(),
{
    let front = objs.drop_last();
    if i == objs.len() - 1 {
        lemma_at_room(front, room);
    } else {
        assert forall|j: int| 0 <= j < i implies (#[trigger] front[j]).room != room by {
            assert(front[j] == objs[j]);
        }
        lemma_at_room_take(front, room, i);
    }
}

proof fn lemma_at_room_none(objs: Seq<V1Objective>, room: V1Room)
    requires
        forall|j: int| 0 <= j < objs.len() ==> (#[trigger] objs[j]).room != room,
    ensures
        at_room(objs, room) is None,
{
    lemma_at_room(objs, room);
}

/// Filtering keeps the queue sound: what stays was there, in the same order.
pub proof fn lemma_filter_wf(q: QueueView, p: spec_fn(V1Objective) -> bool)
    requires
        q.wf(),
    ensures
        (QueueView { objectives: q.objectives.filter(p), ..q }).wf(),
        forall|o: V1Objective|
            q.objectives.filter(p).contains(o) <==> (q.objectives.contains(o) && p(o)),
{
    lemma_filter_parts(q.objectives, p);
    let f = q.objectives.filter(p);
    assert forall|i: int, j: int| 0 <= i < j < f.len() implies (#[trigger] f[i]).id != (
    #[trigger] f[j]).id && f[i].room != f[j].room by {
        let at = choose|at: Seq<int>| embeds(q.objectives, p, at);
        assert(at[i] < at[j]);
        assert(f[i] == q.objectives[at[i]]);
        assert(f[j] == q.objectives[at[j]]);
    }
    assert forall|i: int| 0 <= i < f.len() implies (#[trigger] f[i]).id < q.next_id by {
        let at = choose|at: Seq<int>| embeds(q.objectives, p, at);
        assert(f[i] == q.objectives[at[i]]);
    }
    assert forall|o: V1Objective| q.objectives.contains(o) && p(o) implies f.contains(o) by {
        let i = choose|i: int| 0 <= i < q.objectives.len() && q.objectives[i] == o;
        q.objectives.lemma_filter_contains(p, i);
    }
    assert forall|o: V1Objective| f.contains(o) implies q.objectives.contains(o) && p(o) by {
        q.objectives.lemma_filter_contains_rev(p, o);
        let i = choose|i: int| 0 <= i < f.len() && f[i] == o;
        q.objectives.lemma_filter_pred(p, i);
    }
}

/// `at` lists, in increasing order, the places of the elements that a filter keeps.
spec fn embeds(s: Seq<V1Objective>, p: spec_fn(V1Objective) -> bool, at: Seq<int>) -> bool {
    &&& at.len() == s.filter(p).len()
    &&& forall|i: int|
        0 <= i < at.len() ==> 0 <= #[trigger] at[i] < s.len() && s.filter(p)[i] == s[at[i]]
    &&& forall|i: int, j: int| 0 <= i < j < at.len() ==> #[trigger] at[i] < #[trigger] at[j]
}

proof fn lemma_filter_parts(s: Seq<V1Objective>, p: spec_fn(V1Objective) -> bool)
    ensures
        exists|at: Seq<int>| embeds(s, p, at),
    decreases s.len(),
{
    reveal(Seq::filter);
    if s.len() == 0 {
        assert(embeds(s, p, seq![]));
    } else {
        let front = s.drop_last();
        lemma_filter_parts(front, p);
        let at = choose|at: Seq<int>| embeds(front, p, at);
        if p(s.last()) {
            let wide = at.push(s.len() - 1);
            assert(s.filter(p) =~= front.filter(p).push(s.last()));
            assert(embeds(s, p, wide));
        } else {
            assert(s.filter(p) =~= front.filter(p));
            assert(embeds(s, p, at));
        }
    }
}

proof fn lemma_best_member(objs: Seq<V1Objective>, exclude: u32)
    ensures
        match best_of(objs, exclude) {
            Some(b) => {
                &&& objs.contains(b)
                &&& takeable(b, exclude)
                &&& forall|j: int|
                    0 <= j < objs.len() && takeable(#[trigger] objs[j], exclude) ==> objs[j] == b
                        || outranks(b, objs[j]) || !outranks(objs[j], b)
            },
            None => forall|j: int|
                0 <= j < objs.len() ==> !takeable(#[trigger] objs[j], exclude),
        },
    decreases objs.len(),
{
    if objs.len() > 0 {
        let front = objs.drop_last();
        lemma_best_member(front, exclude);
        assert forall|j: int| 0 <= j < front.len() implies front[j] == #[trigger] objs[j] by {}
        assert(objs[objs.len() - 1] == objs.last());
        if let Some(b) = best_of(front, exclude) {
            let k = choose|k: int| 0 <= k < front.len() && front[k] == b;
            assert(objs[k] == b);
        }
    }
}

// ── Laws ───────────────────────────────────────────────────────────────────

/// A request leaves exactly one objective at its room, under the id it returns,
/// with at least the asked priority and expiry.
pub proof fn request_is_an_upsert(q: QueueView, room: V1Room, priority: i32, now: u32, ttl: u32)
    requires
        q.wf(),
        now + ttl <= u32::MAX,
        q.next_id < u32::MAX,
    ensures
        q.requested(room, priority, now, ttl).wf(),
        at_room(q.requested(room, priority, now, ttl).objectives, room) matches Some(i) && {
            let o = q.requested(room, priority, now, ttl).objectives[i];
            &&& o.id == q.requested_id(room)
            &&& o.priority >= priority
            &&& o.expires_at >= now + ttl
        },
{
    lemma_at_room(q.objectives, room);
    let r = q.requested(room, priority, now, ttl);
    match at_room(q.objectives, room) {
        Some(i) => {
            assert forall|j: int| 0 <= j < i implies (#[trigger] r.objectives[j]).room != room by {
                assert(q.objectives[j].room != q.objectives[i].room);
            }
            assert(r.objectives[i].room == room);
            lemma_at_room_take(r.objectives, room, i);
        },
        None => {
            let n = q.objectives.len() as int;
            assert(r.objectives[n].room == room);
            lemma_at_room_take(r.objectives, room, n);
        },
    }
}

/// A claimed objective outlives its expiry.
pub proof fn claimed_objectives_do_not_expire(q: QueueView, now: u32, o: V1Objective)
    requires
        q.wf(),
        q.objectives.contains(o),
        o.claimed,
    ensures
        q.expired(now).objectives.contains(o),
{
    lemma_filter_wf(q, wanted_at(now));
}

/// Releasing a claim on a free objective restores the queue.
pub proof fn release_undoes_claim(q: QueueView, id: u32)
    requires
        q.wf(),
        forall|i: int|
            0 <= i < q.objectives.len() && (#[trigger] q.objectives[i]).id == id
                ==> !q.objectives[i].claimed,
    ensures
        q.claimed(id).released(id) == q,
{
    assert(q.claimed(id).released(id).objectives =~= q.objectives);
}

/// A withdrawn objective is gone and nothing else is.
pub proof fn withdraw_removes_only_its_objective(q: QueueView, id: u32, o: V1Objective)
    requires
        q.wf(),
    ensures
        q.withdrawn(id).wf(),
        !q.withdrawn(id).has(id),
        q.withdrawn(id).objectives.contains(o) <==> q.objectives.contains(o) && o.id != id,
{
    lemma_filter_wf(q, other_than(id));
    let w = q.withdrawn(id);
    if w.has(id) {
        let i = choose|i: int| 0 <= i < w.objectives.len() && (#[trigger] w.objectives[i]).id == id;
        assert(w.objectives.contains(w.objectives[i]));
    }
}

/// What is taken is free, and nothing free outranks it.
pub proof fn best_unclaimed_is_best(q: QueueView, exclude: u32)
    requires
        q.wf(),
    ensures
        match q.best_unclaimed(exclude) {
            Some(id) => exists|i: int|
                {
                    &&& 0 <= i < q.objectives.len()
                    &&& (#[trigger] q.objectives[i]).id == id
                    &&& takeable(q.objectives[i], exclude)
                    &&& forall|j: int|
                        0 <= j < q.objectives.len() && takeable(#[trigger] q.objectives[j], exclude)
                            && j != i ==> outranks(q.objectives[i], q.objectives[j])
                },
            None => forall|j: int|
                0 <= j < q.objectives.len() ==> !takeable(#[trigger] q.objectives[j], exclude),
        },
{
    lemma_best_member(q.objectives, exclude);
    if let Some(b) = best_of(q.objectives, exclude) {
        let i = choose|i: int| 0 <= i < q.objectives.len() && q.objectives[i] == b;
        assert(q.objectives[i].id == b.id);
    }
}

// ── The queue ──────────────────────────────────────────────────────────────

/// The objective queue.
#[derive(Clone, Debug)]
pub struct V1Queue {
    objectives: Vec<V1Objective>,
    next_id: u32,
}

impl View for V1Queue {
    type V = QueueView;

    closed spec fn view(&self) -> QueueView {
        QueueView { objectives: self.objectives@, next_id: self.next_id }
    }
}

impl Default for V1Queue {
    fn default() -> (r: V1Queue)
        ensures
            r@ == QueueView::empty(),
            r@.wf(),
    {
        let r = V1Queue { objectives: Vec::new(), next_id: 0 };
        assert(r@ =~= QueueView::empty());
        r
    }
}

fn same_room(a: V1Room, b: V1Room) -> (r: bool)
    ensures
        r == (a == b),
{
    a.0 == b.0 && a.1 == b.1
}

impl V1Queue {
    /// Ask for an objective at a room: refresh the one there, or add one. Returns
    /// its id.
    pub fn request(&mut self, room: V1Room, priority: i32, now: u32, ttl: u32) -> (r: u32)
        requires
            old(self)@.wf(),
            now + ttl <= u32::MAX,
            old(self)@.next_id < u32::MAX,
        ensures
            final(self)@ == old(self)@.requested(room, priority, now, ttl),
            final(self)@.wf(),
            r == old(self)@.requested_id(room),
    {
        let ghost q0 = self@;
        proof {
            request_is_an_upsert(q0, room, priority, now, ttl);
        }
        let expires_at: u32 = now + ttl;
        let mut i: usize = 0;
        while i < self.objectives.len()
            invariant
                self@ == q0,
                q0 == old(self)@,
                q0.wf(),
                q0.requested(room, priority, now, ttl).wf(),
                expires_at == now + ttl,
                i <= self.objectives@.len(),
                forall|j: int| 0 <= j < i ==> (#[trigger] self.objectives@[j]).room != room,
            decreases self.objectives.len() - i,
        {
            let mut o: V1Objective = self.objectives[i];
            if same_room(o.room, room) {
                proof {
                    lemma_at_room_take(q0.objectives, room, i as int);
                }
                if priority > o.priority {
                    o.priority = priority;
                }
                if expires_at > o.expires_at {
                    o.expires_at = expires_at;
                }
                self.objectives.set(i, o);
                assert(self@ =~= q0.requested(room, priority, now, ttl));
                return o.id;
            }
            i = i + 1;
        }
        proof {
            lemma_at_room_none(q0.objectives, room);
        }
        let id: u32 = self.next_id;
        self.next_id = self.next_id + 1;
        self.objectives.push(V1Objective { id, room, priority, expires_at, claimed: false });
        assert(self@ =~= q0.requested(room, priority, now, ttl));
        id
    }

    /// Drop what has expired and is not claimed.
    pub fn expire(&mut self, now: u32)
        requires
            old(self)@.wf(),
        ensures
            final(self)@ == old(self)@.expired(now),
            final(self)@.wf(),
    {
        let ghost q0 = self@;
        let ghost p = wanted_at(now);
        let mut kept: Vec<V1Objective> = Vec::new();
        let mut i: usize = 0;
        assert(self.objectives@.take(0).filter(p) =~= Seq::<V1Objective>::empty()) by {
            reveal(Seq::filter);
        }
        while i < self.objectives.len()
            invariant
                p == wanted_at(now),
                i <= self.objectives@.len(),
                kept@ == self.objectives@.take(i as int).filter(p),
            decreases self.objectives.len() - i,
        {
            proof {
                lemma_filter_take(self.objectives@, p, i as int);
            }
            let o: V1Objective = self.objectives[i];
            if o.expires_at > now || o.claimed {
                kept.push(o);
            }
            i = i + 1;
        }
        assert(self.objectives@.take(i as int) =~= self.objectives@);
        proof {
            lemma_filter_wf(q0, p);
        }
        self.objectives = kept;
        assert(self@ =~= q0.expired(now));
    }

    /// The objective with this id.
    pub fn get(&self, id: u32) -> (r: Option<V1Objective>)
        requires
            self@.wf(),
        ensures
            r == self@.get(id),
    {
        let mut i: usize = 0;
        while i < self.objectives.len()
            invariant
                self@.wf(),
                i <= self.objectives@.len(),
                forall|j: int| 0 <= j < i ==> (#[trigger] self.objectives@[j]).id != id,
            decreases self.objectives.len() - i,
        {
            let o: V1Objective = self.objectives[i];
            if o.id == id {
                assert(self@.objectives[i as int].id == id);
                return Some(o);
            }
            i = i + 1;
        }
        None
    }

    fn set_claim(&mut self, id: u32, claimed: bool)
        requires
            old(self)@.wf(),
        ensures
            final(self)@ == (QueueView {
                objectives: with_claim(old(self)@.objectives, id, claimed),
                ..old(self)@
            }),
            final(self)@.wf(),
    {
        let ghost q0 = self@;
        let mut i: usize = 0;
        while i < self.objectives.len()
            invariant
                q0.wf(),
                self.next_id == q0.next_id,
                i <= self.objectives@.len(),
                self.objectives@.len() == q0.objectives.len(),
                forall|j: int|
                    0 <= j < self.objectives@.len() ==> #[trigger] self.objectives@[j] == if j < i {
                        with_claim(q0.objectives, id, claimed)[j]
                    } else {
                        q0.objectives[j]
                    },
            decreases self.objectives.len() - i,
        {
            let mut o: V1Objective = self.objectives[i];
            if o.id == id {
                o.claimed = claimed;
                self.objectives.set(i, o);
            }
            i = i + 1;
        }
        assert(self.objectives@ =~= with_claim(q0.objectives, id, claimed));
        assert forall|i: int, j: int| 0 <= i < j < self.objectives@.len() implies (
        #[trigger] self.objectives@[i]).id != (#[trigger] self.objectives@[j]).id
            && self.objectives@[i].room != self.objectives@[j].room by {
            assert(q0.objectives[i].id != q0.objectives[j].id);
        }
        assert forall|i: int| 0 <= i < self.objectives@.len() implies (
        #[trigger] self.objectives@[i]).id < self.next_id by {
            assert(q0.objectives[i].id < q0.next_id);
        }
    }

    pub fn claim(&mut self, id: u32)
        requires
            old(self)@.wf(),
        ensures
            final(self)@ == old(self)@.claimed(id),
            final(self)@.wf(),
    {
        self.set_claim(id, true)
    }

    pub fn release(&mut self, id: u32)
        requires
            old(self)@.wf(),
        ensures
            final(self)@ == old(self)@.released(id),
            final(self)@.wf(),
    {
        self.set_claim(id, false)
    }

    pub fn withdraw(&mut self, id: u32)
        requires
            old(self)@.wf(),
        ensures
            final(self)@ == old(self)@.withdrawn(id),
            final(self)@.wf(),
    {
        let ghost q0 = self@;
        let ghost p = other_than(id);
        let mut kept: Vec<V1Objective> = Vec::new();
        let mut i: usize = 0;
        assert(self.objectives@.take(0).filter(p) =~= Seq::<V1Objective>::empty()) by {
            reveal(Seq::filter);
        }
        while i < self.objectives.len()
            invariant
                p == other_than(id),
                i <= self.objectives@.len(),
                kept@ == self.objectives@.take(i as int).filter(p),
            decreases self.objectives.len() - i,
        {
            proof {
                lemma_filter_take(self.objectives@, p, i as int);
            }
            let o: V1Objective = self.objectives[i];
            if o.id != id {
                kept.push(o);
            }
            i = i + 1;
        }
        assert(self.objectives@.take(i as int) =~= self.objectives@);
        proof {
            lemma_filter_wf(q0, p);
        }
        self.objectives = kept;
        assert(self@ =~= q0.withdrawn(id));
    }

    /// The best unclaimed objective other than `exclude`: the highest priority, and
    /// the smallest id among equals.
    pub fn best_unclaimed_excluding(&self, exclude: u32) -> (r: Option<u32>)
        ensures
            r == self@.best_unclaimed(exclude),
    {
        let mut best: Option<V1Objective> = None;
        let mut i: usize = 0;
        while i < self.objectives.len()
            invariant
                i <= self.objectives@.len(),
                best == best_of(self.objectives@.take(i as int), exclude),
            decreases self.objectives.len() - i,
        {
            assert(self.objectives@.take(i as int + 1).drop_last() =~= self.objectives@.take(
                i as int,
            ));
            let o: V1Objective = self.objectives[i];
            if !o.claimed && o.id != exclude {
                best = match best {
                    None => Some(o),
                    Some(b) => if o.priority > b.priority || (o.priority == b.priority && o.id
                        < b.id) {
                        Some(o)
                    } else {
                        Some(b)
                    },
                };
            }
            i = i + 1;
        }
        assert(self.objectives@.take(i as int) =~= self.objectives@);
        match best {
            Some(o) => Some(o.id),
            None => None,
        }
    }

    /// The id of the objective at a room.
    pub fn id_at(&self, room: V1Room) -> (r: Option<u32>)
        ensures
            r == match at_room(self@.objectives, room) {
                Some(i) => Some(self@.objectives[i].id),
                None => None,
            },
    {
        let mut i: usize = 0;
        while i < self.objectives.len()
            invariant
                i <= self.objectives@.len(),
                forall|j: int| 0 <= j < i ==> (#[trigger] self.objectives@[j]).room != room,
            decreases self.objectives.len() - i,
        {
            if same_room(self.objectives[i].room, room) {
                proof {
                    lemma_at_room_take(self@.objectives, room, i as int);
                }
                return Some(self.objectives[i].id);
            }
            i = i + 1;
        }
        proof {
            lemma_at_room_none(self@.objectives, room);
        }
        None
    }
}

/// What is taken is free and not barred, and every other free one has a lower priority or
/// the same and a younger id.
pub proof fn the_most_urgent_is_taken(q: QueueView, exclude: u32, i: int, j: int)
    requires
        q.wf(),
        0 <= i < q.objectives.len(),
        0 <= j < q.objectives.len(),
        q.best_unclaimed(exclude) == Some(q.objectives[i].id),
        j != i,
        !q.objectives[j].claimed,
        q.objectives[j].id != exclude,
    ensures
        !q.objectives[i].claimed,
        q.objectives[i].id != exclude,
        q.objectives[i].priority > q.objectives[j].priority || (q.objectives[i].priority
            == q.objectives[j].priority && q.objectives[i].id < q.objectives[j].id),
{
    best_unclaimed_is_best(q, exclude);
    let k = choose|k: int|
        {
            &&& 0 <= k < q.objectives.len()
            &&& (#[trigger] q.objectives[k]).id == q.objectives[i].id
            &&& takeable(q.objectives[k], exclude)
            &&& forall|m: int|
                0 <= m < q.objectives.len() && takeable(#[trigger] q.objectives[m], exclude) && m
                    != k ==> outranks(q.objectives[k], q.objectives[m])
        };
    if k < i {
        assert(q.objectives[k].id != q.objectives[i].id);
    } else if i < k {
        assert(q.objectives[i].id != q.objectives[k].id);
    }
}

/// As long as an objective is free and not barred, something is taken.
pub proof fn something_free_is_taken(q: QueueView, exclude: u32, j: int)
    requires
        q.wf(),
        0 <= j < q.objectives.len(),
        !q.objectives[j].claimed,
        q.objectives[j].id != exclude,
    ensures
        q.best_unclaimed(exclude) is Some,
{
    best_unclaimed_is_best(q, exclude);
    if q.best_unclaimed(exclude) is None {
        assert(!takeable(q.objectives[j], exclude));
    }
}

/// A request for a new room appends one free objective that lives for its time, under the
/// next id; the others stay as they are.
pub proof fn a_new_room_is_appended(q: QueueView, room: V1Room, priority: i32, now: u32, ttl: u32)
    requires
        now + ttl <= u32::MAX,
        q.next_id < u32::MAX,
        forall|j: int| 0 <= j < q.objectives.len() ==> (#[trigger] q.objectives[j]).room != room,
    ensures
        q.requested(room, priority, now, ttl).objectives == q.objectives.push(
            V1Objective {
                id: q.next_id,
                room,
                priority,
                expires_at: (now + ttl) as u32,
                claimed: false,
            },
        ),
        q.requested(room, priority, now, ttl).next_id == q.next_id + 1,
        q.requested_id(room) == q.next_id,
{
    lemma_at_room_none(q.objectives, room);
}

/// A request for a known room raises its priority and its expiry where they were lower, and
/// touches nothing else: not its claim, not its id, no other objective.
pub proof fn a_known_room_is_refreshed(
    q: QueueView,
    room: V1Room,
    priority: i32,
    now: u32,
    ttl: u32,
    i: int,
    j: int,
)
    requires
        q.wf(),
        now + ttl <= u32::MAX,
        0 <= i < q.objectives.len(),
        q.objectives[i].room == room,
        0 <= j < q.objectives.len(),
    ensures
        ({
            let r = q.requested(room, priority, now, ttl);
            let (a, b) = (q.objectives[i], r.objectives[i]);
            &&& r.objectives.len() == q.objectives.len()
            &&& r.next_id == q.next_id
            &&& b.id == a.id && b.room == room && b.claimed == a.claimed
            &&& b.priority >= priority && b.priority >= a.priority
            &&& b.priority == priority || b.priority == a.priority
            &&& b.expires_at >= now + ttl && b.expires_at >= a.expires_at
            &&& b.expires_at == now + ttl || b.expires_at == a.expires_at
            &&& j != i ==> r.objectives[j] == q.objectives[j]
            &&& q.requested_id(room) == a.id
        }),
{
    assert forall|k: int| 0 <= k < i implies (#[trigger] q.objectives[k]).room != room by {
        assert(q.objectives[k].room != q.objectives[i].room);
    }
    lemma_at_room_take(q.objectives, room, i);
}

/// A free objective is dropped at the tick of its expiry and not before.
pub proof fn free_objectives_expire_in_time(q: QueueView, now: u32, o: V1Objective)
    requires
        q.wf(),
        q.objectives.contains(o),
        !o.claimed,
    ensures
        q.expired(now).objectives.contains(o) <==> now < o.expires_at,
        q.expired(now).next_id == q.next_id,
{
    lemma_filter_wf(q, wanted_at(now));
}

/// A claim marks its objective and no other, and changes nothing else of it.
pub proof fn a_claim_marks_its_objective(q: QueueView, id: u32, i: int)
    requires
        0 <= i < q.objectives.len(),
    ensures
        q.claimed(id).objectives.len() == q.objectives.len(),
        q.claimed(id).objectives[i].claimed <==> q.objectives[i].claimed || q.objectives[i].id
            == id,
        q.released(id).objectives[i].claimed <==> q.objectives[i].claimed && q.objectives[i].id
            != id,
        q.claimed(id).objectives[i] == (V1Objective {
            claimed: q.claimed(id).objectives[i].claimed,
            ..q.objectives[i]
        }),
        q.released(id).objectives[i] == (V1Objective {
            claimed: q.released(id).objectives[i].claimed,
            ..q.objectives[i]
        }),
{
}

/// An objective is found by its id exactly where it is queued.
pub proof fn objectives_are_found_by_id(q: QueueView, i: int, id: u32)
    requires
        q.wf(),
        0 <= i < q.objectives.len(),
    ensures
        q.get(q.objectives[i].id) == Some(q.objectives[i]),
        q.get(id) matches Some(o) ==> o.id == id,
{
    let k = choose|k: int|
        0 <= k < q.objectives.len() && (#[trigger] q.objectives[k]).id == q.objectives[i].id;
    if k < i {
        assert(q.objectives[k].id != q.objectives[i].id);
    } else if i < k {
        assert(q.objectives[i].id != q.objectives[k].id);
    }
}

} // verus!
