//! One declaimer squad works a controller down: it forms, travels, and strikes once
//! per upgrade block until the controller is neutral, holding its lease between
//! strikes.
//!
//! [`DeclaimRun`] is driven by questions. Each method takes the answer to the last
//! question and returns the next one, until the run is finished.

use crate::lease::{
    elapsed, ticks_since, ReconcileAction, ReconcileSnapshot, RetireReason, COMMITMENT_BUDGET,
    MAX_FORMING_BUDGET, MAX_TRAVEL_BUDGET,
};
use crate::march::{is_forming, marched, March, MarchStep, V1Phase};
use crate::objective_queue::{at_room, QueueView, V1Queue, V1Room};
use vstd::prelude::*;

verus! {

/// Priority of a declaim objective.
pub const DECLAIM_PRIORITY: i32 = 25;

/// A declaim scenario.
#[derive(Clone, Copy, Debug)]
pub struct DeclaimFlowScenario {
    pub home: V1Room,
    pub controller_room: V1Room,
    /// Ticks the controller stays blocked after a strike.
    pub cadence: u32,
    pub strikes_to_neutralize: u32,
    pub form_ticks: u32,
    pub objective_ttl: u32,
    pub budget_ticks: u32,
}

/// How a declaim run ended.
#[derive(Clone, Copy, Debug, PartialEq, Eq, Structural)]
pub enum DeclaimOutcome {
    /// The controller went neutral and the squad retired with its objective.
    Neutralized { cadence_cycles: u32, neutralized_tick: u32 },
    /// The lease lapsed between two strikes.
    GaveUpMidNeutralization { generations: u32, strikes_landed: u32 },
    /// The budget ran out first.
    NeverReached { generations: u32 },
}

/// What the run needs to know next.
#[derive(Clone, Copy, Debug)]
pub enum DeclaimRequest {
    Reconcile(ReconcileSnapshot),
    Finished(DeclaimOutcome),
}

/// The state of a run.
#[verifier::ext_equal]
pub struct DeclaimView {
    pub s: DeclaimFlowScenario,
    pub queue: QueueView,
    pub tick: u32,
    pub generation: u32,
    pub claimed: Option<u32>,
    pub march: March,
    pub deadline: u32,
    pub gen_start: u32,
    pub strikes_landed: u32,
    pub next_strike_at: Option<u32>,
    pub cadence_cycles: u32,
    pub controller_neutral: bool,
}

impl DeclaimView {
    /// Every strike took one cycle, and the controller is neutral exactly when
    /// enough strikes have landed.
    pub open spec fn wf(self, late: bool) -> bool {
        let slack: int = if late {
            1
        } else {
            0
        };
        &&& self.queue.wf()
        &&& self.queue.next_id <= self.tick + slack
        &&& self.tick <= self.s.budget_ticks
        &&& self.s.budget_ticks + COMMITMENT_BUDGET <= u32::MAX
        &&& self.s.budget_ticks + self.s.form_ticks <= u32::MAX
        &&& self.s.budget_ticks + self.s.objective_ttl <= u32::MAX
        &&& self.s.budget_ticks + self.s.cadence <= u32::MAX
        &&& self.generation <= self.tick
        &&& self.strikes_landed <= self.tick + slack
        &&& self.tallied()
    }

    pub open spec fn tallied(self) -> bool {
        &&& self.cadence_cycles == self.strikes_landed
        &&& self.controller_neutral == (self.strikes_landed > 0 && self.strikes_landed
            >= self.s.strikes_to_neutralize)
    }

    /// The producer asks for the controller while it is owned, and withdraws its
    /// objective once it is neutral.
    pub open spec fn produced(self) -> DeclaimView {
        let q = if !self.controller_neutral {
            self.queue.requested(
                self.s.controller_room,
                DECLAIM_PRIORITY,
                self.tick,
                self.s.objective_ttl,
            )
        } else {
            match at_room(self.queue.objectives, self.s.controller_room) {
                Some(i) => self.queue.withdrawn(self.queue.objectives[i].id),
                None => self.queue,
            }
        };
        DeclaimView { queue: q.expired(self.tick), ..self }
    }

    /// A free squad claims the best objective and forms for it.
    pub open spec fn claiming(self) -> DeclaimView {
        match (self.claimed, self.queue.best_unclaimed(u32::MAX)) {
            (None, Some(id)) => DeclaimView {
                queue: self.queue.claimed(id),
                claimed: Some(id),
                march: March {
                    phase: V1Phase::Forming,
                    pos: self.s.home,
                    form_done_at: (self.tick + self.s.form_ticks) as u32,
                    ..self.march
                },
                deadline: (self.tick + COMMITMENT_BUDGET) as u32,
                gen_start: self.tick,
                ..self
            },
            _ => self,
        }
    }

    /// A squad in the room strikes as soon as the controller is not blocked.
    pub open spec fn struck(self, in_room: bool) -> DeclaimView {
        let due = match self.next_strike_at {
            Some(t) => self.tick >= t,
            None => true,
        };
        if in_room && due && !self.controller_neutral {
            DeclaimView {
                strikes_landed: (self.strikes_landed + 1) as u32,
                cadence_cycles: (self.cadence_cycles + 1) as u32,
                next_strike_at: Some((self.tick + self.s.cadence) as u32),
                controller_neutral: self.strikes_landed + 1 >= self.s.strikes_to_neutralize,
                ..self
            }
        } else {
            self
        }
    }

    pub open spec fn snapshot(self, gone: bool, step: MarchStep) -> ReconcileSnapshot {
        let forming = is_forming(self.march, self.tick);
        ReconcileSnapshot {
            objective_gone: gone,
            duplicate: false,
            is_defend: false,
            deadline_lapsed: self.tick >= self.deadline,
            wiped: false,
            has_focus: false,
            engaged_once: false,
            in_target_room: step.in_room,
            has_members: true,
            forming,
            forming_progress: forming,
            forming_in_flight: forming,
            forming_budget_remaining: elapsed(self.tick, self.gen_start) < MAX_FORMING_BUDGET,
            traveling: step.traveling,
            travel_progress: step.progress,
            travel_budget_remaining: elapsed(self.tick, self.march.travel_start)
                < MAX_TRAVEL_BUDGET,
            holding_station: false,
            declaiming: step.in_room,
            reassign_available: false,
            retreated_from_contact: false,
        }
    }

    /// The squad moves or strikes, and reports.
    pub open spec fn moved(self, id: u32) -> (DeclaimView, DeclaimRequest) {
        let target = match self.queue.get(id) {
            Some(o) => Some(o.room),
            None => None,
        };
        let step = marched(self.march, target, self.tick);
        let v = DeclaimView { march: step.march, ..self }.struck(step.in_room);
        (v, DeclaimRequest::Reconcile(v.snapshot(target is None, step)))
    }

    pub open spec fn neutralized(self) -> DeclaimOutcome {
        DeclaimOutcome::Neutralized {
            cadence_cycles: self.cadence_cycles,
            neutralized_tick: self.tick,
        }
    }

    /// A tick runs up to the report, or the run is over.
    pub open spec fn opened(self) -> (DeclaimView, DeclaimRequest)
        decreases self.s.budget_ticks - self.tick,
    {
        if self.tick >= self.s.budget_ticks {
            (
                self,
                DeclaimRequest::Finished(
                    DeclaimOutcome::NeverReached { generations: self.generation },
                ),
            )
        } else {
            let c = self.produced().claiming();
            match c.claimed {
                Some(id) => c.moved(id),
                None => if c.controller_neutral {
                    (c, DeclaimRequest::Finished(c.neutralized()))
                } else {
                    DeclaimView { tick: (self.tick + 1) as u32, ..c }.opened()
                },
            }
        }
    }

    pub open spec fn next_tick(self) -> (DeclaimView, DeclaimRequest) {
        DeclaimView { tick: (self.tick + 1) as u32, ..self }.opened()
    }

    /// The report is judged.
    pub open spec fn reconciled(self, action: ReconcileAction) -> (DeclaimView, DeclaimRequest) {
        let id = self.claimed->0;
        match action {
            ReconcileAction::Retire { reason, withdraw, .. } => {
                if reason == RetireReason::ObjectiveGone && self.controller_neutral {
                    (self, DeclaimRequest::Finished(self.neutralized()))
                } else if reason == RetireReason::GaveUp {
                    (
                        self,
                        DeclaimRequest::Finished(
                            DeclaimOutcome::GaveUpMidNeutralization {
                                generations: self.generation,
                                strikes_landed: self.strikes_landed,
                            },
                        ),
                    )
                } else {
                    DeclaimView {
                        queue: if withdraw {
                            self.queue.withdrawn(id)
                        } else {
                            self.queue.released(id)
                        },
                        generation: (self.generation + 1) as u32,
                        claimed: None,
                        march: March { phase: V1Phase::Forming, ..self.march },
                        ..self
                    }.next_tick()
                }
            },
            ReconcileAction::KeepRefreshLease => DeclaimView {
                deadline: (self.tick + COMMITMENT_BUDGET) as u32,
                ..self
            }.next_tick(),
            _ => self.next_tick(),
        }
    }
}

/// The state before the first tick.
pub open spec fn declaim_started(s: DeclaimFlowScenario) -> DeclaimView {
    DeclaimView {
        s,
        queue: QueueView::empty(),
        tick: 0,
        generation: 0,
        claimed: None,
        march: March {
            phase: V1Phase::Forming,
            pos: s.home,
            form_done_at: s.form_ticks,
            travel_start: 0,
        },
        deadline: COMMITMENT_BUDGET,
        gen_start: 0,
        strikes_landed: 0,
        next_strike_at: None,
        cadence_cycles: 0,
        controller_neutral: false,
    }
}

/// A run that reports a neutral controller has landed at least the strikes that it
/// takes, one per cycle.
pub proof fn neutralized_takes_enough_strikes(v: DeclaimView, action: ReconcileAction)
    requires
        v.tallied(),
        v.tick < v.s.budget_ticks,
    ensures
        v.reconciled(action).1 matches DeclaimRequest::Finished(
            DeclaimOutcome::Neutralized { cadence_cycles, .. },
        ) ==> 0 < cadence_cycles && v.s.strikes_to_neutralize <= cadence_cycles,
{
    let id = v.claimed->0;
    match action {
        ReconcileAction::Retire { reason, withdraw, .. } => {
            let w = DeclaimView {
                queue: if withdraw {
                    v.queue.withdrawn(id)
                } else {
                    v.queue.released(id)
                },
                generation: (v.generation + 1) as u32,
                claimed: None,
                march: March { phase: V1Phase::Forming, ..v.march },
                tick: (v.tick + 1) as u32,
                ..v
            };
            lemma_opened_keeps_tally(w);
        },
        ReconcileAction::KeepRefreshLease => {
            lemma_opened_keeps_tally(
                DeclaimView {
                    deadline: (v.tick + COMMITMENT_BUDGET) as u32,
                    tick: (v.tick + 1) as u32,
                    ..v
                },
            );
        },
        _ => {
            lemma_opened_keeps_tally(DeclaimView { tick: (v.tick + 1) as u32, ..v });
        },
    }
}

proof fn lemma_opened_keeps_tally(v: DeclaimView)
    requires
        v.tallied(),
    ensures
        v.opened().1 matches DeclaimRequest::Finished(
            DeclaimOutcome::Neutralized { cadence_cycles, .. },
        ) ==> 0 < cadence_cycles && v.s.strikes_to_neutralize <= cadence_cycles,
    decreases v.s.budget_ticks - v.tick,
{
    if v.tick < v.s.budget_ticks {
        let c = v.produced().claiming();
        if c.claimed is None && !c.controller_neutral {
            lemma_opened_keeps_tally(DeclaimView { tick: (v.tick + 1) as u32, ..c });
        }
    }
}

/// Two strikes are at least a cadence apart: before the block has run out nothing
/// is struck.
pub proof fn no_strike_while_blocked(v: DeclaimView, in_room: bool)
    requires
        v.next_strike_at matches Some(t) && v.tick < t,
    ensures
        v.struck(in_room) == v,
{
}

/// A declaim run in progress.
#[derive(Debug)]
pub struct DeclaimRun {
    s: DeclaimFlowScenario,
    queue: V1Queue,
    tick: u32,
    generation: u32,
    claimed: Option<u32>,
    march: March,
    deadline: u32,
    gen_start: u32,
    strikes_landed: u32,
    next_strike_at: Option<u32>,
    cadence_cycles: u32,
    controller_neutral: bool,
}

impl View for DeclaimRun {
    type V = DeclaimView;

    closed spec fn view(&self) -> DeclaimView {
        DeclaimView {
            s: self.s,
            queue: self.queue@,
            tick: self.tick,
            generation: self.generation,
            claimed: self.claimed,
            march: self.march,
            deadline: self.deadline,
            gen_start: self.gen_start,
            strikes_landed: self.strikes_landed,
            next_strike_at: self.next_strike_at,
            cadence_cycles: self.cadence_cycles,
            controller_neutral: self.controller_neutral,
        }
    }
}

impl DeclaimRun {
    /// The run at its first report.
    pub fn start(s: DeclaimFlowScenario) -> (r: (DeclaimRun, DeclaimRequest))
        requires
            s.budget_ticks + COMMITMENT_BUDGET <= u32::MAX,
            s.budget_ticks + s.form_ticks <= u32::MAX,
            s.budget_ticks + s.objective_ttl <= u32::MAX,
            s.budget_ticks + s.cadence <= u32::MAX,
        ensures
            (r.0@, r.1) == declaim_started(s).opened(),
            r.1 is Reconcile ==> r.0@.wf(true) && r.0@.tick < s.budget_ticks && r.0@.claimed
                is Some,
    {
        let mut run = DeclaimRun {
            s,
            queue: V1Queue::default(),
            tick: 0,
            generation: 0,
            claimed: None,
            march: March {
                phase: V1Phase::Forming,
                pos: s.home,
                form_done_at: s.form_ticks,
                travel_start: 0,
            },
            deadline: COMMITMENT_BUDGET,
            gen_start: 0,
            strikes_landed: 0,
            next_strike_at: None,
            cadence_cycles: 0,
            controller_neutral: false,
        };
        assert(run@ =~= declaim_started(s));
        let first: DeclaimRequest = run.open_tick();
        (run, first)
    }

    fn produce(&mut self)
        requires
            old(self)@.wf(false),
            old(self)@.tick < old(self)@.s.budget_ticks,
        ensures
            final(self)@ == old(self)@.produced(),
            final(self)@.queue.wf(),
            final(self)@.queue.next_id <= old(self)@.tick + 1,
    {
        let ghost v0 = self@;
        if !self.controller_neutral {
            let _id: u32 = self.queue.request(
                self.s.controller_room,
                DECLAIM_PRIORITY,
                self.tick,
                self.s.objective_ttl,
            );
        } else if let Some(id) = self.queue.id_at(self.s.controller_room) {
            self.queue.withdraw(id);
        }
        self.queue.expire(self.tick);
        assert(self@ =~= v0.produced());
    }

    fn claim_best(&mut self)
        requires
            old(self)@.queue.wf(),
            old(self)@.tick < old(self)@.s.budget_ticks,
            old(self)@.s.budget_ticks + COMMITMENT_BUDGET <= u32::MAX,
            old(self)@.s.budget_ticks + old(self)@.s.form_ticks <= u32::MAX,
        ensures
            final(self)@ == old(self)@.claiming(),
            final(self)@.queue.wf(),
    {
        let ghost v0 = self@;
        if self.claimed.is_none() {
            if let Some(id) = self.queue.best_unclaimed_excluding(u32::MAX) {
                self.queue.claim(id);
                self.claimed = Some(id);
                self.march = March {
                    phase: V1Phase::Forming,
                    pos: self.s.home,
                    form_done_at: self.tick + self.s.form_ticks,
                    travel_start: self.march.travel_start,
                };
                self.deadline = self.tick + COMMITMENT_BUDGET;
                self.gen_start = self.tick;
            }
        }
        assert(self@ =~= v0.claiming());
    }

    fn strike(&mut self, in_room: bool)
        requires
            old(self)@.strikes_landed <= old(self)@.tick,
            old(self)@.cadence_cycles == old(self)@.strikes_landed,
            old(self)@.tick < old(self)@.s.budget_ticks,
            old(self)@.s.budget_ticks + old(self)@.s.cadence <= u32::MAX,
        ensures
            final(self)@ == old(self)@.struck(in_room),
    {
        let ghost v0 = self@;
        let due: bool = match self.next_strike_at {
            Some(t) => self.tick >= t,
            None => true,
        };
        if in_room && due && !self.controller_neutral {
            self.strikes_landed = self.strikes_landed + 1;
            self.cadence_cycles = self.cadence_cycles + 1;
            self.next_strike_at = Some(self.tick + self.s.cadence);
            self.controller_neutral = self.strikes_landed >= self.s.strikes_to_neutralize;
        }
        assert(self@ =~= v0.struck(in_room));
    }

    fn advance_squad(&mut self, id: u32) -> (r: DeclaimRequest)
        requires
            old(self)@.wf(true),
            old(self)@.strikes_landed <= old(self)@.tick,
            old(self)@.tick < old(self)@.s.budget_ticks,
        ensures
            (final(self)@, r) == old(self)@.moved(id),
            final(self)@.wf(true),
            r is Reconcile,
    {
        let ghost v0 = self@;
        let target: Option<V1Room> = match self.queue.get(id) {
            Some(o) => Some(o.room),
            None => None,
        };
        let step: MarchStep = self.march.advance(target, self.tick);
        self.march = step.march;
        assert(self@ =~= DeclaimView { march: step.march, ..v0 });
        self.strike(step.in_room);
        let forming: bool = self.march.forming(self.tick);
        DeclaimRequest::Reconcile(
            ReconcileSnapshot {
                objective_gone: target.is_none(),
                duplicate: false,
                is_defend: false,
                deadline_lapsed: self.tick >= self.deadline,
                wiped: false,
                has_focus: false,
                engaged_once: false,
                in_target_room: step.in_room,
                has_members: true,
                forming,
                forming_progress: forming,
                forming_in_flight: forming,
                forming_budget_remaining: ticks_since(self.tick, self.gen_start)
                    < MAX_FORMING_BUDGET,
                traveling: step.traveling,
                travel_progress: step.progress,
                travel_budget_remaining: ticks_since(self.tick, self.march.travel_start)
                    < MAX_TRAVEL_BUDGET,
                holding_station: false,
                declaiming: step.in_room,
                reassign_available: false,
                retreated_from_contact: false,
            },
        )
    }

    fn open_tick(&mut self) -> (r: DeclaimRequest)
        requires
            old(self)@.wf(false),
        ensures
            (final(self)@, r) == old(self)@.opened(),
            final(self)@.s == old(self)@.s,
            r is Reconcile ==> final(self)@.wf(true) && final(self)@.tick
                < final(self)@.s.budget_ticks && final(self)@.claimed is Some,
    {
        while self.tick < self.s.budget_ticks
            invariant
                self@.wf(false),
                self@.s == old(self)@.s,
                self@.opened() == old(self)@.opened(),
            decreases self@.s.budget_ticks - self@.tick,
        {
            let ghost v0 = self@;
            self.produce();
            self.claim_best();
            let ghost c = self@;
            if let Some(id) = self.claimed {
                return self.advance_squad(id);
            }
            if self.controller_neutral {
                return DeclaimRequest::Finished(self.neutralized());
            }
            self.tick = self.tick + 1;
            assert(self@ =~= DeclaimView { tick: (v0.tick + 1) as u32, ..c });
        }
        DeclaimRequest::Finished(DeclaimOutcome::NeverReached { generations: self.generation })
    }

    fn neutralized(&self) -> (r: DeclaimOutcome)
        ensures
            r == self@.neutralized(),
    {
        DeclaimOutcome::Neutralized {
            cadence_cycles: self.cadence_cycles,
            neutralized_tick: self.tick,
        }
    }

    fn next_tick(&mut self) -> (r: DeclaimRequest)
        requires
            old(self)@.tick < old(self)@.s.budget_ticks,
            (DeclaimView { tick: (old(self)@.tick + 1) as u32, ..old(self)@ }).wf(false),
        ensures
            (final(self)@, r) == old(self)@.next_tick(),
            final(self)@.s == old(self)@.s,
            r is Reconcile ==> final(self)@.wf(true) && final(self)@.tick
                < final(self)@.s.budget_ticks && final(self)@.claimed is Some,
    {
        let ghost v0 = self@;
        self.tick = self.tick + 1;
        assert(self@ =~= DeclaimView { tick: (v0.tick + 1) as u32, ..v0 });
        self.open_tick()
    }

    /// Answer to [`DeclaimRequest::Reconcile`]: the judgement on the squad. A
    /// declaimer is never rebound.
    pub fn reconciled(&mut self, action: ReconcileAction) -> (r: DeclaimRequest)
        requires
            old(self)@.wf(true),
            old(self)@.tick < old(self)@.s.budget_ticks,
            old(self)@.claimed is Some,
            !(action is Reassign),
        ensures
            (final(self)@, r) == old(self)@.reconciled(action),
            final(self)@.s == old(self)@.s,
            r is Reconcile ==> final(self)@.wf(true) && final(self)@.tick
                < final(self)@.s.budget_ticks && final(self)@.claimed is Some,
    {
        let ghost v0 = self@;
        let id: u32 = self.claimed.unwrap();
        match action {
            ReconcileAction::Retire { reason, withdraw, .. } => {
                if matches!(reason, RetireReason::ObjectiveGone) && self.controller_neutral {
                    return DeclaimRequest::Finished(self.neutralized());
                }
                if matches!(reason, RetireReason::GaveUp) {
                    return DeclaimRequest::Finished(
                        DeclaimOutcome::GaveUpMidNeutralization {
                            generations: self.generation,
                            strikes_landed: self.strikes_landed,
                        },
                    );
                }
                if withdraw {
                    self.queue.withdraw(id);
                } else {
                    self.queue.release(id);
                }
                self.generation = self.generation + 1;
                self.claimed = None;
                self.march.phase = V1Phase::Forming;
                assert(self@ =~= DeclaimView {
                    queue: if withdraw {
                        v0.queue.withdrawn(id)
                    } else {
                        v0.queue.released(id)
                    },
                    generation: (v0.generation + 1) as u32,
                    claimed: None,
                    march: March { phase: V1Phase::Forming, ..v0.march },
                    ..v0
                });
                self.next_tick()
            },
            ReconcileAction::KeepRefreshLease => {
                self.deadline = self.tick + COMMITMENT_BUDGET;
                assert(self@ =~= DeclaimView {
                    deadline: (v0.tick + COMMITMENT_BUDGET) as u32,
                    ..v0
                });
                self.next_tick()
            },
            _ => self.next_tick(),
        }
    }
}

// ── What each question and each answer is for ──────────────────────────────

/// While the controller is owned its room is asked for, at twenty-five or more and for its
/// whole time; once it is neutral nobody asks for it any more.
pub proof fn the_controller_is_asked_for_while_owned(v: DeclaimView)
    requires
        v.queue.wf(),
        v.queue.next_id < u32::MAX,
        v.tick + v.s.objective_ttl <= u32::MAX,
        v.s.objective_ttl > 0,
    ensures
        !v.controller_neutral ==> exists|o: crate::objective_queue::V1Objective|
            #[trigger] v.produced().queue.objectives.contains(o) && o.room
                == v.s.controller_room && o.priority >= 25 && o.expires_at
                >= v.tick + v.s.objective_ttl,
        v.controller_neutral ==> forall|i: int|
            0 <= i < v.produced().queue.objectives.len() ==> (
            #[trigger] v.produced().queue.objectives[i]).room != v.s.controller_room,
        v.produced().strikes_landed == v.strikes_landed,
        v.produced().claimed == v.claimed,
        v.produced().tick == v.tick,
{
    let room = v.s.controller_room;
    if !v.controller_neutral {
        let q = v.queue.requested(room, DECLAIM_PRIORITY, v.tick, v.s.objective_ttl);
        crate::objective_queue::request_is_an_upsert(
            v.queue,
            room,
            DECLAIM_PRIORITY,
            v.tick,
            v.s.objective_ttl,
        );
        crate::objective_queue::lemma_at_room(q.objectives, room);
        let i = at_room(q.objectives, room)->0;
        let o = q.objectives[i];
        assert(q.objectives.contains(o));
        crate::objective_queue::lemma_filter_wf(q, crate::objective_queue::wanted_at(v.tick));
        assert(v.produced().queue.objectives.contains(o));
    } else {
        crate::objective_queue::lemma_at_room(v.queue.objectives, room);
        let r = v.produced().queue;
        let q = match at_room(v.queue.objectives, room) {
            Some(i) => v.queue.withdrawn(v.queue.objectives[i].id),
            None => v.queue,
        };
        if let Some(i) = at_room(v.queue.objectives, room) {
            crate::objective_queue::lemma_filter_wf(
                v.queue,
                crate::objective_queue::other_than(v.queue.objectives[i].id),
            );
        }
        crate::objective_queue::lemma_filter_wf(q, crate::objective_queue::wanted_at(v.tick));
        assert forall|k: int| 0 <= k < r.objectives.len() implies (
        #[trigger] r.objectives[k]).room != room by {
            let o = r.objectives[k];
            assert(r.objectives.contains(o));
            assert(q.objectives.contains(o));
            assert(v.queue.objectives.contains(o));
            let m = choose|m: int| 0 <= m < v.queue.objectives.len() && v.queue.objectives[m] == o;
            if let Some(i) = at_room(v.queue.objectives, room) {
                if o.room == room && m != i {
                    if m < i {
                        assert(v.queue.objectives[m].room != v.queue.objectives[i].room);
                    } else {
                        assert(v.queue.objectives[i].room != v.queue.objectives[m].room);
                    }
                }
            }
        }
    }
}

/// A free squad takes the best objective that is left, marks it as its own, and forms for it
/// at home under a fresh lease of four hundred ticks. A bound squad stays bound.
pub proof fn declaim_squads_take_the_best_left(v: DeclaimView)
    requires
        v.tick + v.s.form_ticks <= u32::MAX,
        v.tick + 400 <= u32::MAX,
    ensures
        ({
            let w = v.claiming();
            &&& v.claimed is Some ==> w == v
            &&& v.claimed is None && v.queue.best_unclaimed(u32::MAX) is None ==> w == v
            &&& v.claimed is None && v.queue.best_unclaimed(u32::MAX) is Some ==> {
                let id = v.queue.best_unclaimed(u32::MAX)->0;
                &&& w.claimed == Some(id)
                &&& w.march.phase is Forming
                &&& w.march.pos == v.s.home
                &&& w.march.form_done_at == v.tick + v.s.form_ticks
                &&& w.deadline == v.tick + 400
                &&& w.gen_start == v.tick
                &&& w.generation == v.generation
                &&& w.tick == v.tick
                &&& w.queue.objectives.len() == v.queue.objectives.len()
                &&& forall|i: int|
                    0 <= i < w.queue.objectives.len() && (#[trigger] w.queue.objectives[i]).id
                        == id ==> w.queue.objectives[i].claimed
            }
        }),
{
}

/// A squad in the room strikes when the controller is not blocked, each strike counts once
/// and blocks the controller for a cadence, and the last one that it takes makes it neutral.
/// Elsewhere, or once it is neutral, nothing is struck.
pub proof fn strikes_land_when_due(v: DeclaimView, in_room: bool)
    requires
        v.tick + v.s.cadence <= u32::MAX,
        v.strikes_landed < u32::MAX,
        v.cadence_cycles < u32::MAX,
    ensures
        ({
            let w = v.struck(in_room);
            let free = v.next_strike_at is None || v.tick >= v.next_strike_at->0;
            let lands = in_room && free && !v.controller_neutral;
            &&& !lands ==> w == v
            &&& lands ==> w.strikes_landed == v.strikes_landed + 1
            &&& lands ==> w.cadence_cycles == v.cadence_cycles + 1
            &&& lands ==> w.next_strike_at == Some((v.tick + v.s.cadence) as u32)
            &&& lands ==> (w.controller_neutral <==> v.strikes_landed + 1
                >= v.s.strikes_to_neutralize)
            &&& w.claimed == v.claimed && w.march == v.march && w.deadline == v.deadline
        }),
{
}

/// What a declaimer reports, fact by fact: in the room it is at work.
pub proof fn declaim_report_tells_the_facts(v: DeclaimView, id: u32)
    ensures
        v.moved(id).1 matches DeclaimRequest::Reconcile(s) && {
            let w = v.moved(id).0;
            let there = v.queue.has(id) && v.march.phase is InRoom;
            &&& !s.duplicate && !s.wiped && !s.retreated_from_contact && s.has_members
            &&& s.deadline_lapsed <==> v.tick >= v.deadline
            &&& s.forming <==> w.march.phase is Forming && v.tick < w.march.form_done_at
            &&& s.forming_progress == s.forming && s.forming_in_flight == s.forming
            &&& v.tick >= v.gen_start ==> (s.forming_budget_remaining <==> v.tick < v.gen_start
                + 3000)
            &&& v.tick >= w.march.travel_start ==> (s.travel_budget_remaining <==> v.tick
                < w.march.travel_start + 1000)
            &&& s.objective_gone <==> !v.queue.has(id)
            &&& s.traveling <==> v.queue.has(id) && v.march.phase is Traveling
            &&& !s.is_defend && !s.has_focus && !s.engaged_once && !s.holding_station
            &&& !s.reassign_available
            &&& s.in_target_room <==> there
            &&& s.declaiming <==> there
            &&& !there ==> w.strikes_landed == v.strikes_landed
        },
{
}

/// A declaim run ends neutral with its objective gone, gives up with its strikes told, or
/// starts a new generation; a run whose time is up never got there.
pub proof fn declaim_ends(v: DeclaimView, action: ReconcileAction)
    requires
        action is Retire,
        v.tick + 1 >= v.s.budget_ticks,
        v.tick < u32::MAX,
        v.generation < u32::MAX,
    ensures
        ({
            let r = action->reason;
            let (w, ask) = v.reconciled(action);
            &&& r == RetireReason::ObjectiveGone && v.controller_neutral ==> ask
                == DeclaimRequest::Finished(
                DeclaimOutcome::Neutralized {
                    cadence_cycles: v.cadence_cycles,
                    neutralized_tick: v.tick,
                },
            )
            &&& r == RetireReason::GaveUp ==> ask == DeclaimRequest::Finished(
                DeclaimOutcome::GaveUpMidNeutralization {
                    generations: v.generation,
                    strikes_landed: v.strikes_landed,
                },
            )
            &&& r != RetireReason::GaveUp && !(r == RetireReason::ObjectiveGone
                && v.controller_neutral) ==> w.generation == v.generation + 1 && w.claimed is None
                && w.march.phase is Forming && ask == DeclaimRequest::Finished(
                DeclaimOutcome::NeverReached { generations: (v.generation + 1) as u32 },
            )
        }),
{
}

/// A kept declaimer goes on to the next tick; only a refreshed lease moves the deadline.
pub proof fn declaim_kept(v: DeclaimView, refresh: bool)
    requires
        v.tick + 1 >= v.s.budget_ticks,
        v.tick + 400 <= u32::MAX,
    ensures
        ({
            let action = if refresh {
                ReconcileAction::KeepRefreshLease
            } else {
                ReconcileAction::Keep
            };
            let (w, ask) = v.reconciled(action);
            &&& w.tick == v.tick + 1
            &&& w.generation == v.generation
            &&& w.claimed == v.claimed
            &&& w.strikes_landed == v.strikes_landed
            &&& refresh ==> w.deadline == v.tick + 400
            &&& !refresh ==> w.deadline == v.deadline
            &&& ask == DeclaimRequest::Finished(
                DeclaimOutcome::NeverReached { generations: v.generation },
            )
        }),
{
}

/// A neutral controller and no squad bound to it end the run at once.
pub proof fn a_neutral_controller_ends_the_run(v: DeclaimView)
    requires
        v.tick < v.s.budget_ticks,
        v.controller_neutral,
        v.claimed is None,
        v.queue.objectives.len() == 0,
    ensures
        v.opened().1 == DeclaimRequest::Finished(
            DeclaimOutcome::Neutralized {
                cadence_cycles: v.cadence_cycles,
                neutralized_tick: v.tick,
            },
        ),
{
    reveal(Seq::filter);
    assert(v.produced().queue.objectives.len() == 0);
}

/// A run starts at tick 0, at home and forming, with no strike landed and 400 ticks to commit.
pub proof fn a_declaim_run_starts_at_home(s: DeclaimFlowScenario)
    ensures
        ({
            let v = declaim_started(s);
            &&& v.s == s
            &&& v.tick == 0 && v.generation == 0 && v.strikes_landed == 0 && v.cadence_cycles == 0
            &&& v.claimed is None && v.next_strike_at is None && !v.controller_neutral
            &&& v.march.phase == V1Phase::Forming && v.march.pos == s.home
            &&& v.march.form_done_at == v.tick + s.form_ticks
            &&& v.deadline == v.tick + 400 && v.gen_start == v.tick
        }),
{
}

} // verus!
