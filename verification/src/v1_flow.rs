//! One defender, many objectives: a threat moves from room to room, objectives
//! follow it through the queue, and the squad is rebound to a new one where that
//! is allowed.
//!
//! [`V1Run`] is driven by questions. Each method takes the answer to the last
//! question and returns the next one, until the run is finished.

use crate::lease::{
    elapsed, ticks_since, ChurnOutcome, ReconcileAction, ReconcileSnapshot, RetireReason,
    COMMITMENT_BUDGET, MAX_FORMING_BUDGET, MAX_TRAVEL_BUDGET,
};
use crate::lists::copied;
use crate::march::{
    is_defend_holding, is_forming, marched, rooms_between, v1_dist, March, MarchStep, V1Phase,
};
use crate::objective_queue::{QueueView, V1Objective, V1Queue, V1Room};
use crate::travel::{least, least_of};
use vstd::prelude::*;

verus! {

/// A moving-threat scenario.
#[derive(Debug)]
pub struct V1FlowScenario {
    /// Owned rooms, each with the bit pattern of its value.
    pub owned: Vec<(V1Room, u32)>,
    pub home: V1Room,
    /// The threat's room at each scan.
    pub threat_path: Vec<V1Room>,
    pub scan_period: u32,
    pub objective_ttl: u32,
    /// The squad may be rebound in place.
    pub reassign_enabled: bool,
    pub form_ticks: u32,
    pub budget_ticks: u32,
}

impl Clone for V1FlowScenario {
    fn clone(&self) -> (r: Self)
        ensures
            r.owned@ == self.owned@,
            r.threat_path@ == self.threat_path@,
            (V1FlowScenario { owned: self.owned, threat_path: self.threat_path, ..r }) == *self,
    {
        V1FlowScenario {
            owned: copied(&self.owned),
            home: self.home,
            threat_path: copied(&self.threat_path),
            scan_period: self.scan_period,
            objective_ttl: self.objective_ttl,
            reassign_enabled: self.reassign_enabled,
            form_ticks: self.form_ticks,
            budget_ticks: self.budget_ticks,
        }
    }
}

/// What a scan sees: the threat's room, whether it is an owned one, and how far the
/// nearest owned room is.
#[derive(Clone, Copy, Debug)]
pub struct Sighting {
    pub room: Option<V1Room>,
    pub owned: bool,
    pub nearest_owned: Option<u32>,
}

/// A room that the defense wants secured, and an integer that orders as its
/// priority does.
#[derive(Clone, Copy, Debug)]
pub struct Emission {
    pub room: V1Room,
    pub priority: i32,
}

/// What the run needs to know next.
#[derive(Clone, Copy, Debug)]
pub enum V1Request {
    /// Which rooms does the defense want secured?
    Scan(Sighting),
    Reconcile(ReconcileSnapshot),
    Finished(ChurnOutcome),
}

pub open spec fn owns(owned: Seq<(V1Room, u32)>, room: V1Room) -> bool {
    exists|j: int| 0 <= j < owned.len() && (#[trigger] owned[j]).0 == room
}

pub open spec fn owned_dists(owned: Seq<(V1Room, u32)>, room: V1Room) -> Seq<Option<u32>> {
    Seq::new(owned.len(), |j: int| Some(rooms_between(owned[j].0, room) as u32))
}

/// The queue after a scan's emissions.
pub open spec fn requested_all(q: QueueView, e: Seq<Emission>, now: u32, ttl: u32) -> QueueView
    decreases e.len(),
{
    if e.len() == 0 {
        q
    } else {
        requested_all(q, e.drop_last(), now, ttl).requested(
            e.last().room,
            e.last().priority,
            now,
            ttl,
        )
    }
}

/// The state of a run.
#[verifier::ext_equal]
pub struct V1View {
    pub s: V1FlowScenario,
    pub queue: QueueView,
    pub tick: u32,
    pub generation: u32,
    pub reassignments: u32,
    pub claimed: Option<u32>,
    pub march: March,
    pub engaged_once: bool,
    pub deadline: u32,
    pub gen_start: u32,
    pub threat_step: usize,
    pub in_room: bool,
    pub has_focus: bool,
}

impl V1View {
    pub open spec fn wf(self, late: bool) -> bool {
        &&& self.queue.wf()
        &&& self.s.scan_period > 0
        &&& self.tick <= self.s.budget_ticks
        &&& self.s.budget_ticks + COMMITMENT_BUDGET <= u32::MAX
        &&& self.s.budget_ticks + self.s.form_ticks <= u32::MAX
        &&& self.s.budget_ticks + self.s.objective_ttl <= u32::MAX
        &&& self.generation <= self.tick
        &&& self.reassignments <= self.tick
        &&& self.threat_step <= self.tick + if late {
            1int
        } else {
            0int
        }
    }

    pub open spec fn path_room(self, i: int) -> Option<V1Room> {
        if 0 <= i < self.s.threat_path@.len() {
            Some(self.s.threat_path@[i])
        } else {
            None
        }
    }

    pub open spec fn sighting(self) -> Sighting {
        let room = self.path_room(self.threat_step as int);
        match room {
            Some(r) => Sighting {
                room,
                owned: owns(self.s.owned@, r),
                nearest_owned: least(owned_dists(self.s.owned@, r)),
            },
            None => Sighting { room, owned: false, nearest_owned: None },
        }
    }

    /// How the run ends when its budget is used up.
    pub open spec fn verdict(self) -> ChurnOutcome {
        if self.reassignments > 0 {
            ChurnOutcome::Reassigned {
                from_gen: self.generation,
                reassignments: self.reassignments,
                engage_tick: self.s.budget_ticks,
            }
        } else if self.march.phase == V1Phase::Forming {
            ChurnOutcome::ChurnedNeverDeployed { generations: self.generation, max_present: 0 }
        } else {
            ChurnOutcome::LapsedInTravel { generations: self.generation }
        }
    }

    /// A free squad claims the best objective and forms for it.
    pub open spec fn claiming(self) -> V1View {
        match (self.claimed, self.queue.best_unclaimed(u32::MAX)) {
            (None, Some(id)) => V1View {
                queue: self.queue.claimed(id),
                claimed: Some(id),
                march: March {
                    phase: V1Phase::Forming,
                    pos: self.s.home,
                    form_done_at: (self.tick + self.s.form_ticks) as u32,
                    ..self.march
                },
                engaged_once: false,
                deadline: (self.tick + COMMITMENT_BUDGET) as u32,
                gen_start: self.tick,
                ..self
            },
            _ => self,
        }
    }

    pub open spec fn target_room(self, id: u32) -> Option<V1Room> {
        match self.queue.get(id) {
            Some(o) => Some(o.room),
            None => None,
        }
    }

    /// The squad moves and reports.
    pub open spec fn moved(self, id: u32) -> (V1View, V1Request) {
        let target = self.target_room(id);
        let step = marched(self.march, target, self.tick);
        let seen = if self.threat_step >= 1 {
            self.threat_step - 1
        } else {
            0
        };
        let v = V1View {
            march: step.march,
            engaged_once: self.engaged_once || step.in_room,
            in_room: step.in_room,
            has_focus: step.in_room && self.path_room(seen) == target,
            ..self
        };
        (v, V1Request::Reconcile(v.snapshot(id, step)))
    }

    pub open spec fn snapshot(self, id: u32, step: MarchStep) -> ReconcileSnapshot {
        let forming = is_forming(self.march, self.tick);
        ReconcileSnapshot {
            objective_gone: self.queue.get(id) is None,
            duplicate: false,
            is_defend: true,
            deadline_lapsed: self.tick >= self.deadline,
            wiped: false,
            has_focus: self.has_focus,
            engaged_once: self.engaged_once,
            in_target_room: self.in_room,
            has_members: true,
            forming,
            forming_progress: forming,
            forming_in_flight: forming,
            forming_budget_remaining: elapsed(self.tick, self.gen_start) < MAX_FORMING_BUDGET,
            traveling: step.traveling,
            travel_progress: step.progress,
            travel_budget_remaining: elapsed(self.tick, self.march.travel_start)
                < MAX_TRAVEL_BUDGET,
            holding_station: self.in_room && !self.has_focus,
            declaiming: false,
            reassign_available: self.s.reassign_enabled && self.queue.best_unclaimed(id) is Some,
            retreated_from_contact: false,
        }
    }

    /// The queue is settled for this tick: the squad acts, or the tick passes.
    pub open spec fn acted(self) -> (V1View, V1Request)
        decreases self.s.budget_ticks - self.tick, 0int,
    {
        let c = self.claiming();
        match c.claimed {
            Some(id) => c.moved(id),
            None => if self.tick < self.s.budget_ticks {
                V1View { tick: (self.tick + 1) as u32, ..c }.opened()
            } else {
                (c, V1Request::Finished(c.verdict()))
            },
        }
    }

    /// A tick opens with a scan or without, or the budget is used up.
    pub open spec fn opened(self) -> (V1View, V1Request)
        decreases self.s.budget_ticks - self.tick, 1int,
    {
        if self.tick >= self.s.budget_ticks {
            (self, V1Request::Finished(self.verdict()))
        } else if self.tick % self.s.scan_period == 0 {
            (self, V1Request::Scan(self.sighting()))
        } else {
            V1View { queue: self.queue.expired(self.tick), ..self }.acted()
        }
    }

    /// The scan's emissions enter the queue and the threat moves on.
    pub open spec fn scanned(self, e: Seq<Emission>) -> (V1View, V1Request) {
        V1View {
            queue: requested_all(self.queue, e, self.tick, self.s.objective_ttl).expired(self.tick),
            threat_step: (self.threat_step + 1) as usize,
            ..self
        }.acted()
    }

    pub open spec fn next_tick(self) -> (V1View, V1Request) {
        V1View { tick: (self.tick + 1) as u32, ..self }.opened()
    }

    /// The squad is rebound in place: no new generation, the bodies are kept.
    pub open spec fn rebound(self, id: u32, to: u32, withdraw_old: bool) -> V1View {
        let released = self.queue.released(id);
        let settled = if withdraw_old {
            released.withdrawn(id)
        } else {
            released
        };
        V1View {
            queue: settled.claimed(to),
            claimed: Some(to),
            march: March {
                phase: V1Phase::Forming,
                form_done_at: self.tick,
                travel_start: self.tick,
                ..self.march
            },
            engaged_once: false,
            deadline: (self.tick + COMMITMENT_BUDGET) as u32,
            reassignments: (self.reassignments + 1) as u32,
            ..self
        }
    }

    /// The squad is retired and will be fielded anew.
    pub open spec fn retired(self, id: u32, withdraw: bool) -> V1View {
        V1View {
            queue: if withdraw {
                self.queue.withdrawn(id)
            } else {
                self.queue.released(id)
            },
            ..self
        }
    }

    pub open spec fn followed(self) -> ChurnOutcome {
        ChurnOutcome::Reassigned {
            from_gen: self.generation,
            reassignments: self.reassignments,
            engage_tick: self.tick,
        }
    }

    /// A rebound squad that fights in its room has followed the threat.
    pub open spec fn kept(self) -> (V1View, V1Request) {
        if self.reassignments > 0 && self.in_room && self.engaged_once && self.has_focus {
            (self, V1Request::Finished(self.followed()))
        } else {
            self.next_tick()
        }
    }

    /// The report is judged.
    pub open spec fn reconciled(self, action: ReconcileAction) -> (V1View, V1Request) {
        let id = self.claimed->0;
        match action {
            ReconcileAction::Reassign { withdraw_old } => self.rebound(
                id,
                self.queue.best_unclaimed(id)->0,
                withdraw_old,
            ).next_tick(),
            ReconcileAction::Retire { reason, withdraw, .. } => {
                let r = self.retired(id, withdraw);
                if reason == RetireReason::Resolved && self.reassignments > 0 {
                    (r, V1Request::Finished(self.followed()))
                } else {
                    V1View {
                        generation: (self.generation + 1) as u32,
                        claimed: None,
                        march: March { phase: V1Phase::Forming, ..self.march },
                        engaged_once: false,
                        ..r
                    }.next_tick()
                }
            },
            ReconcileAction::KeepRefreshLease => V1View {
                deadline: (self.tick + COMMITMENT_BUDGET) as u32,
                ..self
            }.kept(),
            ReconcileAction::Keep => self.kept(),
        }
    }
}

/// The state before the first tick.
pub open spec fn started(s: V1FlowScenario) -> V1View {
    V1View {
        s,
        queue: QueueView::empty(),
        tick: 0,
        generation: 0,
        reassignments: 0,
        claimed: None,
        march: March {
            phase: V1Phase::Forming,
            pos: s.home,
            form_done_at: s.form_ticks,
            travel_start: 0,
        },
        engaged_once: false,
        deadline: COMMITMENT_BUDGET,
        gen_start: 0,
        threat_step: 0,
        in_room: false,
        has_focus: false,
    }
}

/// A rebinding keeps the generation and the squad's position; only a retirement
/// starts a new generation.
pub proof fn rebinding_is_not_a_new_generation(v: V1View, id: u32, to: u32, withdraw_old: bool)
    ensures
        v.rebound(id, to, withdraw_old).generation == v.generation,
        v.rebound(id, to, withdraw_old).march.pos == v.march.pos,
{
}

/// A moving-threat run in progress.
#[derive(Debug)]
pub struct V1Run {
    s: V1FlowScenario,
    queue: V1Queue,
    tick: u32,
    generation: u32,
    reassignments: u32,
    claimed: Option<u32>,
    march: March,
    engaged_once: bool,
    deadline: u32,
    gen_start: u32,
    threat_step: usize,
    in_room: bool,
    has_focus: bool,
}

impl View for V1Run {
    type V = V1View;

    closed spec fn view(&self) -> V1View {
        V1View {
            s: self.s,
            queue: self.queue@,
            tick: self.tick,
            generation: self.generation,
            reassignments: self.reassignments,
            claimed: self.claimed,
            march: self.march,
            engaged_once: self.engaged_once,
            deadline: self.deadline,
            gen_start: self.gen_start,
            threat_step: self.threat_step,
            in_room: self.in_room,
            has_focus: self.has_focus,
        }
    }
}

fn rooms_equal(a: Option<V1Room>, b: Option<V1Room>) -> (r: bool)
    ensures
        r == (a == b),
{
    match (a, b) {
        (Some(x), Some(y)) => x.0 == y.0 && x.1 == y.1,
        (None, None) => true,
        _ => false,
    }
}

fn is_owned(owned: &Vec<(V1Room, u32)>, room: V1Room) -> (r: bool)
    ensures
        r == owns(owned@, room),
{
    let mut j: usize = 0;
    while j < owned.len()
        invariant
            j <= owned@.len(),
            forall|k: int| 0 <= k < j ==> (#[trigger] owned@[k]).0 != room,
        decreases owned.len() - j,
    {
        let o: V1Room = owned[j].0;
        if o.0 == room.0 && o.1 == room.1 {
            return true;
        }
        j = j + 1;
    }
    false
}

fn nearest_owned(owned: &Vec<(V1Room, u32)>, room: V1Room) -> (r: Option<u32>)
    ensures
        r == least(owned_dists(owned@, room)),
{
    let mut d: Vec<Option<u32>> = Vec::new();
    let mut j: usize = 0;
    while j < owned.len()
        invariant
            j <= owned@.len(),
            d@ == owned_dists(owned@, room).take(j as int),
        decreases owned.len() - j,
    {
        d.push(Some(v1_dist(owned[j].0, room)));
        j = j + 1;
        assert(d@ =~= owned_dists(owned@, room).take(j as int));
    }
    assert(d@ =~= owned_dists(owned@, room));
    least_of(&d)
}

fn request_all(queue: &mut V1Queue, e: &Vec<Emission>, now: u32, ttl: u32)
    requires
        old(queue)@.wf(),
        now + ttl <= u32::MAX,
        old(queue)@.next_id + e@.len() <= u32::MAX,
    ensures
        final(queue)@ == requested_all(old(queue)@, e@, now, ttl),
        final(queue)@.wf(),
{
    let ghost q0 = queue@;
    let mut j: usize = 0;
    assert(e@.take(0) =~= Seq::<Emission>::empty());
    while j < e.len()
        invariant
            j <= e@.len(),
            now + ttl <= u32::MAX,
            q0.next_id + e@.len() <= u32::MAX,
            queue@.wf(),
            queue@ == requested_all(q0, e@.take(j as int), now, ttl),
            queue@.next_id <= q0.next_id + j,
        decreases e.len() - j,
    {
        assert(e@.take(j as int + 1).drop_last() =~= e@.take(j as int));
        let _id: u32 = queue.request(e[j].room, e[j].priority, now, ttl);
        j = j + 1;
    }
    assert(e@.take(j as int) =~= e@);
}

impl V1Run {
    /// The run at its first tick, and its first question.
    pub fn start(s: V1FlowScenario) -> (r: (V1Run, V1Request))
        requires
            s.scan_period > 0,
            s.budget_ticks + COMMITMENT_BUDGET <= u32::MAX,
            s.budget_ticks + s.form_ticks <= u32::MAX,
            s.budget_ticks + s.objective_ttl <= u32::MAX,
        ensures
            (r.0@, r.1) == started(s).opened(),
            r.0@.wf(r.1 is Reconcile),
            !(r.1 is Finished) ==> r.0@.tick < r.0@.s.budget_ticks,
            r.1 is Reconcile ==> r.0@.claimed is Some,
    {
        let march = March {
            phase: V1Phase::Forming,
            pos: s.home,
            form_done_at: s.form_ticks,
            travel_start: 0,
        };
        let mut run = V1Run {
            s,
            queue: V1Queue::default(),
            tick: 0,
            generation: 0,
            reassignments: 0,
            claimed: None,
            march,
            engaged_once: false,
            deadline: COMMITMENT_BUDGET,
            gen_start: 0,
            threat_step: 0,
            in_room: false,
            has_focus: false,
        };
        assert(run@ =~= started(s));
        let first: V1Request = run.open_tick();
        (run, first)
    }

    fn path_room(&self, i: usize) -> (r: Option<V1Room>)
        ensures
            r == self@.path_room(i as int),
    {
        if i < self.s.threat_path.len() {
            Some(self.s.threat_path[i])
        } else {
            None
        }
    }

    fn sighting(&self) -> (r: Sighting)
        ensures
            r == self@.sighting(),
    {
        let room: Option<V1Room> = self.path_room(self.threat_step);
        match room {
            Some(r) => Sighting {
                room,
                owned: is_owned(&self.s.owned, r),
                nearest_owned: nearest_owned(&self.s.owned, r),
            },
            None => Sighting { room, owned: false, nearest_owned: None },
        }
    }

    fn verdict(&self) -> (r: ChurnOutcome)
        ensures
            r == self@.verdict(),
    {
        if self.reassignments > 0 {
            ChurnOutcome::Reassigned {
                from_gen: self.generation,
                reassignments: self.reassignments,
                engage_tick: self.s.budget_ticks,
            }
        } else if matches!(self.march.phase, V1Phase::Forming) {
            ChurnOutcome::ChurnedNeverDeployed { generations: self.generation, max_present: 0 }
        } else {
            ChurnOutcome::LapsedInTravel { generations: self.generation }
        }
    }

    fn claim_best(&mut self)
        requires
            old(self)@.wf(true),
        ensures
            final(self)@ == old(self)@.claiming(),
            final(self)@.wf(true),
            old(self)@.wf(false) ==> final(self)@.wf(false),
    {
        let ghost v0 = self@;
        if self.claimed.is_none() {
            if let Some(id) = self.queue.best_unclaimed_excluding(u32::MAX) {
                self.queue.claim(id);
                self.claimed = Some(id);
                self.march = March {
                    phase: V1Phase::Forming,
                    pos: self.s.home,
                    form_done_at: self.tick + self.s.form_ticks,
                    travel_start: self.march.travel_start,
                };
                self.engaged_once = false;
                self.deadline = self.tick + COMMITMENT_BUDGET;
                self.gen_start = self.tick;
            }
        }
        assert(self@ =~= v0.claiming());
    }

    fn advance_squad(&mut self, id: u32) -> (r: V1Request)
        requires
            old(self)@.wf(true),
        ensures
            (final(self)@, r) == old(self)@.moved(id),
            final(self)@.wf(true),
            r is Reconcile,
    {
        let ghost v0 = self@;
        let obj: Option<V1Objective> = self.queue.get(id);
        let target: Option<V1Room> = match obj {
            Some(o) => Some(o.room),
            None => None,
        };
        let step: MarchStep = self.march.advance(target, self.tick);
        let seen: usize = if self.threat_step >= 1 {
            self.threat_step - 1
        } else {
            0
        };
        let threat: Option<V1Room> = self.path_room(seen);
        self.march = step.march;
        self.engaged_once = self.engaged_once || step.in_room;
        self.in_room = step.in_room;
        self.has_focus = step.in_room && rooms_equal(threat, target);
        assert(self@ =~= v0.moved(id).0);
        let forming: bool = self.march.forming(self.tick);
        V1Request::Reconcile(
            ReconcileSnapshot {
                objective_gone: obj.is_none(),
                duplicate: false,
                is_defend: true,
                deadline_lapsed: self.tick >= self.deadline,
                wiped: false,
                has_focus: self.has_focus,
                engaged_once: self.engaged_once,
                in_target_room: self.in_room,
                has_members: true,
                forming,
                forming_progress: forming,
                forming_in_flight: forming,
                forming_budget_remaining: ticks_since(self.tick, self.gen_start)
                    < MAX_FORMING_BUDGET,
                traveling: step.traveling,
                travel_progress: step.progress,
                travel_budget_remaining: ticks_since(self.tick, self.march.travel_start)
                    < MAX_TRAVEL_BUDGET,
                holding_station: is_defend_holding(self.in_room, self.has_focus),
                declaiming: false,
                reassign_available: self.s.reassign_enabled
                    && self.queue.best_unclaimed_excluding(id).is_some(),
                retreated_from_contact: false,
            },
        )
    }

    fn act(&mut self) -> (r: V1Request)
        requires
            old(self)@.wf(true),
            old(self)@.tick < old(self)@.s.budget_ticks,
        ensures
            (final(self)@, r) == old(self)@.acted(),
            final(self)@.wf(r is Reconcile),
            !(r is Finished) ==> final(self)@.tick < final(self)@.s.budget_ticks,
            r is Reconcile ==> final(self)@.claimed is Some,
    {
        loop
            invariant
                self@.wf(true),
                self@.tick < self@.s.budget_ticks,
                self@.acted() == old(self)@.acted(),
            decreases self@.s.budget_ticks - self@.tick,
        {
            let ghost v0 = self@;
            self.claim_best();
            let ghost c = self@;
            if let Some(id) = self.claimed {
                return self.advance_squad(id);
            }
            self.tick = self.tick + 1;
            assert(self@ =~= V1View { tick: (v0.tick + 1) as u32, ..c });
            if self.tick >= self.s.budget_ticks {
                return V1Request::Finished(self.verdict());
            }
            if self.tick % self.s.scan_period == 0 {
                return V1Request::Scan(self.sighting());
            }
            let ghost v1 = self@;
            self.queue.expire(self.tick);
            assert(self@ =~= V1View { queue: v1.queue.expired(v1.tick), ..v1 });
        }
    }

    fn open_tick(&mut self) -> (r: V1Request)
        requires
            old(self)@.wf(false),
        ensures
            (final(self)@, r) == old(self)@.opened(),
            final(self)@.wf(r is Reconcile),
            !(r is Finished) ==> final(self)@.tick < final(self)@.s.budget_ticks,
            r is Reconcile ==> final(self)@.claimed is Some,
    {
        if self.tick >= self.s.budget_ticks {
            return V1Request::Finished(self.verdict());
        }
        if self.tick % self.s.scan_period == 0 {
            return V1Request::Scan(self.sighting());
        }
        let ghost v0 = self@;
        self.queue.expire(self.tick);
        assert(self@ =~= V1View { queue: v0.queue.expired(v0.tick), ..v0 });
        self.act()
    }

    /// Answer to [`V1Request::Scan`]: the rooms the defense wants secured.
    pub fn scanned(&mut self, emissions: &Vec<Emission>) -> (r: V1Request)
        requires
            old(self)@.wf(false),
            old(self)@.tick < old(self)@.s.budget_ticks,
            old(self)@.queue.next_id + emissions@.len() <= u32::MAX,
        ensures
            (final(self)@, r) == old(self)@.scanned(emissions@),
            final(self)@.wf(r is Reconcile),
            !(r is Finished) ==> final(self)@.tick < final(self)@.s.budget_ticks,
            r is Reconcile ==> final(self)@.claimed is Some,
    {
        let ghost v0 = self@;
        request_all(&mut self.queue, emissions, self.tick, self.s.objective_ttl);
        self.queue.expire(self.tick);
        self.threat_step = self.threat_step + 1;
        assert(self@ =~= V1View {
            queue: requested_all(v0.queue, emissions@, v0.tick, v0.s.objective_ttl).expired(
                v0.tick,
            ),
            threat_step: (v0.threat_step + 1) as usize,
            ..v0
        });
        self.act()
    }

    fn next_tick(&mut self) -> (r: V1Request)
        requires
            old(self)@.queue.wf(),
            old(self)@.tick < old(self)@.s.budget_ticks,
            (V1View { tick: (old(self)@.tick + 1) as u32, ..old(self)@ }).wf(false),
        ensures
            (final(self)@, r) == old(self)@.next_tick(),
            final(self)@.wf(r is Reconcile),
            !(r is Finished) ==> final(self)@.tick < final(self)@.s.budget_ticks,
            r is Reconcile ==> final(self)@.claimed is Some,
    {
        let ghost v0 = self@;
        self.tick = self.tick + 1;
        assert(self@ =~= V1View { tick: (v0.tick + 1) as u32, ..v0 });
        self.open_tick()
    }

    fn keep(&mut self) -> (r: V1Request)
        requires
            old(self)@.wf(true),
            old(self)@.tick < old(self)@.s.budget_ticks,
        ensures
            (final(self)@, r) == old(self)@.kept(),
            final(self)@.wf(r is Reconcile || r is Finished),
            !(r is Finished) ==> final(self)@.tick < final(self)@.s.budget_ticks,
            r is Reconcile ==> final(self)@.claimed is Some,
    {
        if self.reassignments > 0 && self.in_room && self.engaged_once && self.has_focus {
            return V1Request::Finished(self.followed());
        }
        self.next_tick()
    }

    fn followed(&self) -> (r: ChurnOutcome)
        ensures
            r == self@.followed(),
    {
        ChurnOutcome::Reassigned {
            from_gen: self.generation,
            reassignments: self.reassignments,
            engage_tick: self.tick,
        }
    }

    fn rebind(&mut self, id: u32, to: u32, withdraw_old: bool)
        requires
            old(self)@.wf(true),
            old(self)@.tick < old(self)@.s.budget_ticks,
        ensures
            final(self)@ == old(self)@.rebound(id, to, withdraw_old),
            final(self)@.queue.wf(),
    {
        let ghost v0 = self@;
        self.queue.release(id);
        if withdraw_old {
            self.queue.withdraw(id);
        }
        self.queue.claim(to);
        self.claimed = Some(to);
        self.march.phase = V1Phase::Forming;
        self.march.form_done_at = self.tick;
        self.march.travel_start = self.tick;
        self.engaged_once = false;
        self.deadline = self.tick + COMMITMENT_BUDGET;
        self.reassignments = self.reassignments + 1;
        assert(self@ =~= v0.rebound(id, to, withdraw_old));
    }

    /// Answer to [`V1Request::Reconcile`]: the judgement on the squad.
    pub fn reconciled(&mut self, action: ReconcileAction) -> (r: V1Request)
        requires
            old(self)@.wf(true),
            old(self)@.tick < old(self)@.s.budget_ticks,
            old(self)@.claimed is Some,
            action is Reassign ==> old(self)@.queue.best_unclaimed(old(self)@.claimed->0) is Some,
        ensures
            (final(self)@, r) == old(self)@.reconciled(action),
            final(self)@.wf(r is Reconcile || r is Finished),
            !(r is Finished) ==> final(self)@.tick < final(self)@.s.budget_ticks,
            r is Reconcile ==> final(self)@.claimed is Some,
    {
        let ghost v0 = self@;
        let id: u32 = self.claimed.unwrap();
        match action {
            ReconcileAction::Reassign { withdraw_old } => {
                let to: u32 = self.queue.best_unclaimed_excluding(id).unwrap();
                self.rebind(id, to, withdraw_old);
                self.next_tick()
            },
            ReconcileAction::Retire { reason, withdraw, .. } => {
                if withdraw {
                    self.queue.withdraw(id);
                } else {
                    self.queue.release(id);
                }
                let ghost gone = self@;
                assert(gone =~= v0.retired(id, withdraw));
                if matches!(reason, RetireReason::Resolved) && self.reassignments > 0 {
                    return V1Request::Finished(self.followed());
                }
                self.generation = self.generation + 1;
                self.claimed = None;
                self.march.phase = V1Phase::Forming;
                self.engaged_once = false;
                assert(self@ =~= V1View {
                    generation: (v0.generation + 1) as u32,
                    claimed: None,
                    march: March { phase: V1Phase::Forming, ..v0.march },
                    engaged_once: false,
                    ..gone
                });
                self.next_tick()
            },
            ReconcileAction::KeepRefreshLease => {
                self.deadline = self.tick + COMMITMENT_BUDGET;
                assert(self@ =~= V1View {
                    deadline: (v0.tick + COMMITMENT_BUDGET) as u32,
                    ..v0
                });
                self.keep()
            },
            ReconcileAction::Keep => self.keep(),
        }
    }
}

// ── What each question and each answer is for ──────────────────────────────

/// A scan is shown the room that the threat is in by now, whether it is one's own, and how
/// far the nearest own room is.
pub proof fn a_scan_sees_the_threat(v: V1View, j: int)
    requires
        v.threat_step < v.s.threat_path@.len(),
        0 <= j < v.s.owned@.len(),
    ensures
        ({
            let seen = v.sighting();
            let room = v.s.threat_path@[v.threat_step as int];
            &&& seen.room == Some(room)
            &&& v.s.owned@[j].0 == room ==> seen.owned
            &&& seen.nearest_owned matches Some(d) && d <= rooms_between(
                v.s.owned@[j].0,
                room,
            ) as u32
            &&& seen.owned ==> exists|k: int|
                0 <= k < v.s.owned@.len() && (#[trigger] v.s.owned@[k]).0 == room
        }),
{
    let room = v.s.threat_path@[v.threat_step as int];
    crate::travel::least_is_a_least_reading(owned_dists(v.s.owned@, room), j);
}

/// A threat whose path is over is seen nowhere.
pub proof fn a_gone_threat_is_not_seen(v: V1View)
    requires
        v.threat_step >= v.s.threat_path@.len(),
    ensures
        v.sighting().room is None,
        !v.sighting().owned,
        v.sighting().nearest_owned is None,
{
}

/// The defense scans on every tick that its period divides, while there is time.
pub proof fn scans_keep_their_period(v: V1View)
    requires
        v.s.scan_period > 0,
        v.tick < v.s.budget_ticks,
    ensures
        v.tick % v.s.scan_period == 0 ==> v.opened().0 == v && v.opened().1 is Scan,
{
}

/// After a scan the threat has moved on by one step.
pub proof fn a_scan_moves_the_threat_on(v: V1View, e: Seq<Emission>)
    requires
        v.claimed is Some,
        v.threat_step < usize::MAX,
    ensures
        v.scanned(e).0.threat_step == v.threat_step + 1,
        v.scanned(e).0.tick == v.tick,
        v.scanned(e).1 is Reconcile,
{
}

/// A run whose time is up ends as rebound, as never deployed, or as lapsed on its way.
pub proof fn v1_time_up(v: V1View)
    requires
        v.tick >= v.s.budget_ticks,
    ensures
        v.reassignments > 0 ==> v.opened().1 == V1Request::Finished(
            ChurnOutcome::Reassigned {
                from_gen: v.generation,
                reassignments: v.reassignments,
                engage_tick: v.s.budget_ticks,
            },
        ),
        v.reassignments == 0 && v.march.phase is Forming ==> v.opened().1 == V1Request::Finished(
            ChurnOutcome::ChurnedNeverDeployed { generations: v.generation, max_present: 0 },
        ),
        v.reassignments == 0 && !(v.march.phase is Forming) ==> v.opened().1
            == V1Request::Finished(ChurnOutcome::LapsedInTravel { generations: v.generation }),
{
}

/// A free squad takes the best objective that is left, marks it as its own, and forms for it
/// at home under a fresh lease of four hundred ticks. A bound squad stays bound.
pub proof fn v1_squads_take_the_best_left(v: V1View)
    requires
        v.tick + v.s.form_ticks <= u32::MAX,
        v.tick + 400 <= u32::MAX,
    ensures
        ({
            let w = v.claiming();
            &&& v.claimed is Some ==> w == v
            &&& v.claimed is None && v.queue.best_unclaimed(u32::MAX) is None ==> w == v
            &&& v.claimed is None && v.queue.best_unclaimed(u32::MAX) is Some ==> {
                let id = v.queue.best_unclaimed(u32::MAX)->0;
                &&& w.claimed == Some(id)
                &&& w.march.phase is Forming
                &&& w.march.pos == v.s.home
                &&& w.march.form_done_at == v.tick + v.s.form_ticks
                &&& w.deadline == v.tick + 400
                &&& w.gen_start == v.tick
                &&& w.generation == v.generation
                &&& w.tick == v.tick
                &&& w.queue.objectives.len() == v.queue.objectives.len()
                &&& forall|i: int|
                    0 <= i < w.queue.objectives.len() && (#[trigger] w.queue.objectives[i]).id
                        == id ==> w.queue.objectives[i].claimed
            }
        }),
{
}

/// What a defender reports, fact by fact: it holds its station where it is in its room with
/// nothing to fight, and has a focus where the threat was last seen in that room.
pub proof fn v1_report_tells_the_facts(v: V1View, id: u32)
    ensures
        v.moved(id).1 matches V1Request::Reconcile(s) && {
            let w = v.moved(id).0;
            let there = v.queue.has(id) && v.march.phase is InRoom;
            let last = if v.threat_step >= 1 {
                v.threat_step - 1
            } else {
                0
            };
            &&& !s.duplicate && !s.wiped && !s.retreated_from_contact && s.has_members
            &&& s.deadline_lapsed <==> v.tick >= v.deadline
            &&& s.forming <==> w.march.phase is Forming && v.tick < w.march.form_done_at
            &&& s.forming_progress == s.forming && s.forming_in_flight == s.forming
            &&& v.tick >= v.gen_start ==> (s.forming_budget_remaining <==> v.tick < v.gen_start
                + 3000)
            &&& v.tick >= w.march.travel_start ==> (s.travel_budget_remaining <==> v.tick
                < w.march.travel_start + 1000)
            &&& s.objective_gone <==> !v.queue.has(id)
            &&& s.traveling <==> v.queue.has(id) && v.march.phase is Traveling
            &&& s.is_defend && !s.declaiming
            &&& s.in_target_room <==> there
            &&& w.engaged_once <==> v.engaged_once || there
            &&& s.engaged_once == w.engaged_once
            &&& s.has_focus ==> there && last < v.s.threat_path@.len() && v.queue.get(id)->0.room
                == v.s.threat_path@[last]
            &&& there && last < v.s.threat_path@.len() && v.queue.get(id)->0.room
                == v.s.threat_path@[last] ==> s.has_focus
            &&& s.holding_station <==> there && !s.has_focus
            &&& s.reassign_available <==> v.s.reassign_enabled && v.queue.best_unclaimed(id)
                is Some
        },
{
}

/// A squad is rebound in place: it keeps its generation and its bodies where they stand, is
/// ready at once, and its lease starts anew. The old objective is free again or withdrawn,
/// the new one is its own.
pub proof fn rebinding_follows_the_threat(v: V1View, id: u32, to: u32, withdraw_old: bool, i: int)
    requires
        v.queue.wf(),
        v.tick + 400 <= u32::MAX,
        v.reassignments < u32::MAX,
        id != to,
        0 <= i < v.queue.objectives.len(),
    ensures
        ({
            let w = v.rebound(id, to, withdraw_old);
            &&& w.claimed == Some(to)
            &&& w.reassignments == v.reassignments + 1
            &&& w.generation == v.generation
            &&& w.march.pos == v.march.pos
            &&& w.march.phase is Forming
            &&& w.march.form_done_at == v.tick && w.march.travel_start == v.tick
            &&& !w.engaged_once
            &&& w.deadline == v.tick + 400
            &&& w.gen_start == v.gen_start
            &&& withdraw_old ==> !w.queue.has(id)
            &&& !withdraw_old ==> w.queue.objectives.len() == v.queue.objectives.len()
            &&& !withdraw_old && v.queue.objectives[i].id == id ==> !w.queue.objectives[i].claimed
            &&& !withdraw_old && v.queue.objectives[i].id == to ==> w.queue.objectives[i].claimed
        }),
{
    if withdraw_old {
        let q = v.queue.released(id);
        assert forall|a: int| 0 <= a < q.objectives.len() implies (#[trigger] q.objectives[a]).id
            == v.queue.objectives[a].id && q.objectives[a].room == v.queue.objectives[a].room by {}
        assert(q.wf());
        crate::objective_queue::withdraw_removes_only_its_objective(q, id, v.queue.objectives[i]);
        let w = v.rebound(id, to, withdraw_old);
        if w.queue.has(id) {
            let k = choose|k: int|
                0 <= k < w.queue.objectives.len() && (#[trigger] w.queue.objectives[k]).id == id;
            assert(q.withdrawn(id).objectives[k].id == id);
        }
    }
}

/// A retirement ends the run where the squad had followed the threat and its room is cleared;
/// otherwise it starts a new generation without a claim.
pub proof fn v1_retirement(v: V1View, action: ReconcileAction)
    requires
        action is Retire,
        v.generation < u32::MAX,
        v.tick + 1 >= v.s.budget_ticks,
        v.tick < u32::MAX,
    ensures
        ({
            let (w, ask) = v.reconciled(action);
            let done = action->reason == RetireReason::Resolved && v.reassignments > 0;
            &&& done ==> ask == V1Request::Finished(
                ChurnOutcome::Reassigned {
                    from_gen: v.generation,
                    reassignments: v.reassignments,
                    engage_tick: v.tick,
                },
            )
            &&& !done ==> w.generation == v.generation + 1 && w.claimed is None
                && w.march.phase is Forming && !w.engaged_once && w.tick == v.tick + 1
            &&& !(action->withdraw) ==> w.queue == v.queue.released(v.claimed->0)
            &&& action->withdraw ==> w.queue == v.queue.withdrawn(v.claimed->0)
        }),
{
}

/// A kept squad that was rebound and now fights in its room has followed the threat; any
/// other goes on to the next tick. Only a refreshed lease moves the deadline.
pub proof fn v1_kept(v: V1View, refresh: bool)
    requires
        v.tick + 1 >= v.s.budget_ticks,
        v.tick + 400 <= u32::MAX,
    ensures
        ({
            let action = if refresh {
                ReconcileAction::KeepRefreshLease
            } else {
                ReconcileAction::Keep
            };
            let (w, ask) = v.reconciled(action);
            let followed = v.reassignments > 0 && v.in_room && v.engaged_once && v.has_focus;
            &&& followed ==> ask == V1Request::Finished(
                ChurnOutcome::Reassigned {
                    from_gen: v.generation,
                    reassignments: v.reassignments,
                    engage_tick: v.tick,
                },
            )
            &&& !followed ==> w.tick == v.tick + 1
            &&& w.generation == v.generation
            &&& w.claimed == v.claimed
            &&& refresh ==> w.deadline == v.tick + 400
            &&& !refresh ==> w.deadline == v.deadline
        }),
{
}

/// A run starts at tick 0, at home and forming, with nothing queued and 400 ticks to commit.
pub proof fn a_v1_run_starts_at_home(s: V1FlowScenario)
    ensures
        ({
            let v = started(s);
            &&& v.s == s
            &&& v.tick == 0 && v.generation == 0 && v.reassignments == 0 && v.threat_step == 0
            &&& v.claimed is None && !v.engaged_once && !v.in_room && !v.has_focus
            &&& v.march.phase == V1Phase::Forming && v.march.pos == s.home
            &&& v.march.form_done_at == v.tick + s.form_ticks
            &&& v.deadline == v.tick + 400 && v.gen_start == v.tick
        }),
{
}

} // verus!
