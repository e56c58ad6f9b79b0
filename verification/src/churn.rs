//! The full squad lifecycle with counted travel: forming under spawn contention,
//! the departure gate, travel, arrival, and the lease that may drop the squad and
//! field it anew at any of these stages.
//!
//! [`ChurnRun`] is driven by questions. Each method takes the answer to the last
//! question and returns the next one, until the run is finished.

use crate::colony::{
    banked, count_true, fresh_colony, homes_fit, lemma_booked_keeps, lemma_scan_keeps, reply_fits,
    scan_stops_at_the_first_free_lane, Colony, ColonyFormingScenario, ColonyView, LaneOffer,
    LaneReply, QueuedSpawn,
};
use crate::lease::{
    elapsed, ticks_since, ChurnOutcome, ReconcileAction, ReconcileSnapshot, RetireReason,
    COMMITMENT_BUDGET, MAX_FORMING_BUDGET, MAX_TRAVEL_BUDGET,
};
use crate::lists::copied;
use vstd::prelude::*;

verus! {

/// How the target room presents itself to the squad.
#[derive(Clone, Copy, Debug, PartialEq, Eq, Structural)]
pub struct ChurnTarget {
    /// Ticks of travel from home to the target room.
    pub travel_ticks: u32,
    /// The target is known to be clear, so a partial roster may go.
    pub uncontested: bool,
    /// Ticks the room's data used to be empty on arrival. Arrival reads it anew, so
    /// the window has no effect: see [`empty_window_changes_nothing`].
    pub empty_dtos_on_arrival_ticks: u32,
    /// The squad defends a room of its own, which is clear when it gets there.
    pub is_defend: bool,
    /// A hostile in the target room is visible during travel.
    pub target_visible_with_hostile_en_route: bool,
    /// The engagement is latched only in the target room.
    pub latch_engaged_in_room_only: bool,
    /// A defender in its clear room reports that it holds its station.
    pub garrison_holds: bool,
    /// The squad commits on an empty view of the room.
    pub commit_intel_empty: bool,
    /// The room turns out to be towered on arrival.
    pub arrival_has_towers: bool,
    /// An empty view counts as contested, and a lost fight is reported as such.
    pub abandon_fixes_enabled: bool,
    /// The squad falls back in the room but is still winning.
    pub winnable_retreat_in_room: bool,
}

impl Default for ChurnTarget {
    fn default() -> (r: ChurnTarget)
        ensures
            r == (ChurnTarget {
                travel_ticks: 30,
                uncontested: false,
                empty_dtos_on_arrival_ticks: 0,
                is_defend: false,
                target_visible_with_hostile_en_route: false,
                latch_engaged_in_room_only: true,
                garrison_holds: true,
                commit_intel_empty: false,
                arrival_has_towers: false,
                abandon_fixes_enabled: true,
                winnable_retreat_in_room: false,
            }),
    {
        ChurnTarget {
            travel_ticks: 30,
            uncontested: false,
            empty_dtos_on_arrival_ticks: 0,
            is_defend: false,
            target_visible_with_hostile_en_route: false,
            latch_engaged_in_room_only: true,
            garrison_holds: true,
            commit_intel_empty: false,
            arrival_has_towers: false,
            abandon_fixes_enabled: true,
            winnable_retreat_in_room: false,
        }
    }
}

impl ChurnTarget {
    /// Whether the departure gate takes the target for clear.
    pub open spec fn commit_uncontested(self) -> bool {
        self.uncontested && !(self.commit_intel_empty && self.abandon_fixes_enabled)
    }
}

/// Where a squad's generation stands.
#[derive(Clone, Copy, Debug, PartialEq, Eq, Structural)]
pub enum Phase {
    Forming,
    Traveling { arrives_at: u32 },
    Arrived { dtos_clear_at: u32 },
}

/// What the run needs to know next.
#[derive(Clone, Debug)]
pub enum ChurnRequest {
    /// Would any unfilled slot be fielded?
    FieldCheck { filled: Vec<bool> },
    /// May a squad with this many members at home depart?
    Gate { present: usize, slots: usize, uncontested: bool },
    Reconcile(ReconcileSnapshot),
    /// Which slots are fielded, with which bodies?
    FieldSpawn { filled: Vec<bool> },
    RunLane(LaneOffer),
    Finished(ChurnOutcome),
}

/// A request over sequences.
#[verifier::ext_equal]
pub enum ChurnAsk {
    FieldCheck { filled: Seq<bool> },
    Gate { present: usize, slots: nat, uncontested: bool },
    Reconcile(ReconcileSnapshot),
    FieldSpawn { filled: Seq<bool> },
    RunLane { home: int, energy: u32, capacity: u32, queue: Seq<QueuedSpawn> },
    Finished(ChurnOutcome),
}

impl View for ChurnRequest {
    type V = ChurnAsk;

    open spec fn view(&self) -> ChurnAsk {
        match *self {
            ChurnRequest::FieldCheck { filled } => ChurnAsk::FieldCheck { filled: filled@ },
            ChurnRequest::Gate { present, slots, uncontested } => ChurnAsk::Gate {
                present,
                slots: slots as nat,
                uncontested,
            },
            ChurnRequest::Reconcile(s) => ChurnAsk::Reconcile(s),
            ChurnRequest::FieldSpawn { filled } => ChurnAsk::FieldSpawn { filled: filled@ },
            ChurnRequest::RunLane(o) => ChurnAsk::RunLane {
                home: o.home as int,
                energy: o.available_energy,
                capacity: o.energy_capacity,
                queue: o.queue@,
            },
            ChurnRequest::Finished(o) => ChurnAsk::Finished(o),
        }
    }
}

/// The state of a run.
#[verifier::ext_equal]
pub struct ChurnView {
    pub target: ChurnTarget,
    pub budget: u32,
    pub colony: ColonyView,
    pub tick: u32,
    pub generation: u32,
    pub max_present: usize,
    pub deadline: u32,
    pub prev_present: usize,
    pub engaged_once: bool,
    pub phase: Phase,
    pub gen_start: u32,
    pub travel_start: u32,
    pub present: usize,
    pub in_flight: bool,
    pub traveling: bool,
    pub progress: bool,
    pub in_room: bool,
    pub retreated: bool,
    pub combat: Seq<QueuedSpawn>,
    pub lane: usize,
}

impl ChurnView {
    pub open spec fn slots(self) -> nat {
        self.colony.filled.len()
    }

    /// Times stay in the integer range and the generation below the clock.
    pub open spec fn wf(self) -> bool {
        &&& self.colony.wf()
        &&& self.tick <= self.budget
        &&& self.budget + COMMITMENT_BUDGET <= u32::MAX
        &&& self.budget + self.target.travel_ticks <= u32::MAX
        &&& self.generation <= self.tick
        &&& self.lane <= self.colony.homes.len()
    }

    pub open spec fn never_deployed(self) -> ChurnOutcome {
        ChurnOutcome::ChurnedNeverDeployed {
            generations: self.generation,
            max_present: self.max_present,
        }
    }

    /// How the run ends when its budget is used up: by the stage it is in.
    pub open spec fn verdict(self) -> ChurnOutcome {
        match self.phase {
            Phase::Forming => self.never_deployed(),
            Phase::Traveling { .. } => ChurnOutcome::LapsedInTravel {
                generations: self.generation,
            },
            Phase::Arrived { .. } => ChurnOutcome::LapsedOnArrival {
                generations: self.generation,
            },
        }
    }

    /// A tick opens, or the budget is used up.
    pub open spec fn opened(self) -> (ChurnView, ChurnAsk) {
        if self.tick >= self.budget {
            (self, ChurnAsk::Finished(self.verdict()))
        } else {
            let colony = self.colony.advanced(self.tick);
            let present = count_true(colony.filled) as usize;
            (
                ChurnView {
                    colony,
                    present,
                    max_present: if present >= self.max_present {
                        present
                    } else {
                        self.max_present
                    },
                    traveling: false,
                    progress: false,
                    in_room: false,
                    retreated: false,
                    ..self
                },
                ChurnAsk::FieldCheck { filled: colony.filled },
            )
        }
    }

    pub open spec fn next_tick(self) -> (ChurnView, ChurnAsk) {
        ChurnView { tick: (self.tick + 1) as u32, ..self }.opened()
    }

    /// The fielding check is answered and the squad does what its stage asks for.
    pub open spec fn field_checked(self, any: bool) -> (ChurnView, ChurnAsk) {
        let v = ChurnView { in_flight: self.colony.pipeline_busy() || any, ..self };
        match self.phase {
            Phase::Forming => (
                v,
                ChurnAsk::Gate {
                    present: self.present,
                    slots: self.slots(),
                    uncontested: self.target.commit_uncontested(),
                },
            ),
            Phase::Traveling { arrives_at } => v.traveled(arrives_at).reported(),
            Phase::Arrived { dtos_clear_at } => v.arrived(dtos_clear_at),
        }
    }

    /// The departure gate is answered.
    pub open spec fn gated(self, open: bool) -> (ChurnView, ChurnAsk) {
        if open {
            ChurnView {
                travel_start: self.tick,
                phase: Phase::Traveling { arrives_at: (self.tick + self.target.travel_ticks) as u32 },
                ..self
            }.reported()
        } else {
            self.reported()
        }
    }

    /// A tick under way. A visible hostile latches the engagement too early unless
    /// the latch waits for the target room.
    pub open spec fn traveled(self, arrives_at: u32) -> ChurnView {
        ChurnView {
            traveling: true,
            progress: true,
            engaged_once: self.engaged_once || (self.target.target_visible_with_hostile_en_route
                && !self.target.latch_engaged_in_room_only),
            phase: if self.tick >= arrives_at {
                Phase::Arrived { dtos_clear_at: self.tick }
            } else {
                self.phase
            },
            ..self
        }
    }

    /// A tick in the target room. A defender stands in its clear room. Others
    /// engage, unless towers make the fight a lost one.
    pub open spec fn arrived(self, dtos_clear_at: u32) -> (ChurnView, ChurnAsk) {
        let v = ChurnView { in_room: true, ..self };
        if self.target.is_defend || self.tick < dtos_clear_at {
            v.reported()
        } else if self.target.arrival_has_towers && !self.target.winnable_retreat_in_room {
            ChurnView {
                engaged_once: true,
                retreated: self.target.abandon_fixes_enabled,
                ..v
            }.reported()
        } else {
            (
                v,
                ChurnAsk::Finished(
                    ChurnOutcome::DeployedAndEngaged {
                        generations: self.generation,
                        engage_tick: self.tick,
                    },
                ),
            )
        }
    }

    pub open spec fn holding(self) -> bool {
        self.target.garrison_holds && self.target.is_defend && self.in_room
    }

    /// What the squad reports this tick.
    pub open spec fn snapshot(self) -> ReconcileSnapshot {
        let has_members = self.present > 0 || self.colony.pipeline_busy();
        let forming = has_members && !self.engaged_once && self.phase == Phase::Forming
            && self.present < self.slots();
        ReconcileSnapshot {
            objective_gone: false,
            duplicate: false,
            is_defend: self.target.is_defend,
            deadline_lapsed: self.tick >= self.deadline,
            wiped: false,
            has_focus: false,
            engaged_once: self.engaged_once,
            in_target_room: self.in_room,
            has_members,
            forming,
            forming_progress: forming && self.present > self.prev_present,
            forming_in_flight: forming && self.in_flight,
            forming_budget_remaining: elapsed(self.tick, self.gen_start) < MAX_FORMING_BUDGET,
            traveling: self.traveling,
            travel_progress: self.progress,
            travel_budget_remaining: elapsed(self.tick, self.travel_start) < MAX_TRAVEL_BUDGET,
            holding_station: self.holding(),
            declaiming: false,
            reassign_available: false,
            retreated_from_contact: self.retreated,
        }
    }

    /// A defender that holds its station on the last tick has garrisoned its room;
    /// everyone else is judged.
    pub open spec fn reported(self) -> (ChurnView, ChurnAsk) {
        if self.holding() && self.tick + 1 >= self.budget {
            (self, ChurnAsk::Finished(ChurnOutcome::Garrisoned { generations: self.generation }))
        } else {
            (self, ChurnAsk::Reconcile(self.snapshot()))
        }
    }

    /// The squad is dropped and fielded anew.
    pub open spec fn refielded(self, engaged_once: bool) -> ChurnView {
        ChurnView {
            colony: self.colony.refielded(),
            generation: (self.generation + 1) as u32,
            deadline: (self.tick + COMMITMENT_BUDGET) as u32,
            prev_present: 0,
            engaged_once,
            phase: Phase::Forming,
            gen_start: self.tick,
            ..self
        }
    }

    /// The squad gave up.
    pub open spec fn gave_up(self, mark_unwinnable: bool) -> (ChurnView, ChurnAsk) {
        if self.engaged_once && self.in_room && self.retreated && mark_unwinnable {
            (
                self,
                ChurnAsk::Finished(
                    ChurnOutcome::AbandonedOnContact { generations: self.generation },
                ),
            )
        } else if self.phase == Phase::Forming {
            self.refielded(self.engaged_once).next_tick()
        } else if self.engaged_once && !self.in_room {
            (
                self,
                ChurnAsk::Finished(ChurnOutcome::LatchedEnRoute { generations: self.generation }),
            )
        } else if self.target.is_defend && self.in_room {
            self.refielded(false).next_tick()
        } else {
            (self, ChurnAsk::Finished(self.verdict()))
        }
    }

    /// The room was taken for cleared. Where it was a lost fight the squad is
    /// fielded anew, until this has happened three times.
    pub open spec fn resolved(self) -> (ChurnView, ChurnAsk) {
        if self.engaged_once && self.in_room && self.target.arrival_has_towers {
            if self.generation + 1 >= 3 {
                (
                    self,
                    ChurnAsk::Finished(
                        ChurnOutcome::LapsedOnVacuousCommit {
                            generations: (self.generation + 1) as u32,
                        },
                    ),
                )
            } else {
                self.refielded(false).next_tick()
            }
        } else {
            (self, ChurnAsk::Finished(self.never_deployed()))
        }
    }

    pub open spec fn kept(self) -> (ChurnView, ChurnAsk) {
        let v = ChurnView { prev_present: self.present, ..self };
        if self.phase == Phase::Forming {
            (v, ChurnAsk::FieldSpawn { filled: self.colony.filled })
        } else {
            v.next_tick()
        }
    }

    /// The report is judged.
    pub open spec fn reconciled(self, action: ReconcileAction) -> (ChurnView, ChurnAsk) {
        match action {
            ReconcileAction::Retire { reason: RetireReason::GaveUp, mark_unwinnable, .. } => {
                self.gave_up(mark_unwinnable)
            },
            ReconcileAction::Retire { reason: RetireReason::Resolved, .. } => self.resolved(),
            ReconcileAction::Retire { .. } | ReconcileAction::Reassign { .. } => (
                self,
                ChurnAsk::Finished(self.never_deployed()),
            ),
            ReconcileAction::KeepRefreshLease => ChurnView {
                deadline: (self.tick + COMMITMENT_BUDGET) as u32,
                ..self
            }.kept(),
            ReconcileAction::Keep => self.kept(),
        }
    }

    /// The next idle lane from `lane` on gets its offer; after the last the tick
    /// is over.
    pub open spec fn next_lane(self) -> (ChurnView, ChurnAsk) {
        let (c, h) = self.colony.scanned(self.tick, self.lane as int);
        if h >= self.colony.homes.len() {
            ChurnView { colony: c, ..self }.next_tick()
        } else {
            (
                ChurnView { colony: c, lane: h as usize, ..self },
                ChurnAsk::RunLane {
                    home: h,
                    energy: c.avail[h],
                    capacity: c.homes[h].energy_capacity,
                    queue: c.lane_queue(h, self.tick, self.combat, true),
                },
            )
        }
    }

    /// The slots to spawn are known.
    pub open spec fn field_given(self, combat: Seq<QueuedSpawn>) -> (ChurnView, ChurnAsk) {
        ChurnView { combat, lane: 0, ..self }.next_lane()
    }

    /// The lane has run.
    pub open spec fn lane_done(self, reply: LaneReply) -> (ChurnView, ChurnAsk) {
        ChurnView {
            colony: self.colony.booked(
                self.lane as int,
                self.tick,
                reply.available_energy,
                reply.spawned@,
            ),
            lane: (self.lane + 1) as usize,
            ..self
        }.next_lane()
    }
}

/// An answer to a run's question.
#[verifier::ext_equal]
pub enum ChurnAnswer {
    FieldChecked(bool),
    Gated(bool),
    Reconciled(ReconcileAction),
    FieldGiven(Seq<QueuedSpawn>),
    LaneDone(LaneReply),
}

impl ChurnView {
    /// The run after an answer, and its next question.
    pub open spec fn answered(self, a: ChurnAnswer) -> (ChurnView, ChurnAsk) {
        match a {
            ChurnAnswer::FieldChecked(any) => self.field_checked(any),
            ChurnAnswer::Gated(open) => self.gated(open),
            ChurnAnswer::Reconciled(action) => self.reconciled(action),
            ChurnAnswer::FieldGiven(combat) => self.field_given(combat),
            ChurnAnswer::LaneDone(reply) => self.lane_done(reply),
        }
    }

    /// An engagement was latched in the target room only.
    pub open spec fn latched_in_room(self) -> bool {
        self.engaged_once ==> self.phase is Arrived
    }

    /// A retreat is one from a fight that towers make a lost one.
    pub open spec fn retreats_from_towers(self) -> bool {
        self.retreated ==> self.target.arrival_has_towers && !self.target.winnable_retreat_in_room
            && self.target.abandon_fixes_enabled
    }
}

/// Where the latch waits for the target room, no squad freezes under way. Whatever is
/// answered, an engagement stays latched in the target room only, and no run ends with
/// one that was latched en route.
pub proof fn room_latch_never_freezes_en_route(v: ChurnView, a: ChurnAnswer)
    requires
        v.target.latch_engaged_in_room_only,
        v.latched_in_room(),
        a is Gated ==> v.phase is Forming,
        a is Reconciled && v.engaged_once ==> v.in_room,
    ensures
        v.answered(a).0.target == v.target,
        v.answered(a).0.latched_in_room(),
        v.answered(a).1 is Gate ==> v.answered(a).0.phase is Forming,
        v.answered(a).1 is Reconcile && v.answered(a).0.engaged_once ==> v.answered(a).0.in_room,
        v.answered(a).1 matches ChurnAsk::Finished(o) ==> !(o is LatchedEnRoute),
{
}

/// A room that can be won is not abandoned: a squad de-commits on contact only where
/// towers make the fight a lost one, and only with the fixes that tell it so.
pub proof fn winnable_room_is_never_abandoned(v: ChurnView, a: ChurnAnswer)
    requires
        v.retreats_from_towers(),
    ensures
        v.answered(a).0.target == v.target,
        v.answered(a).0.retreats_from_towers(),
        v.answered(a).1 matches ChurnAsk::Finished(o) && o is AbandonedOnContact
            ==> v.target.arrival_has_towers && !v.target.winnable_retreat_in_room
            && v.target.abandon_fixes_enabled,
{
}

/// A squad engages in the target room only, and no defender leaves its station for it.
pub proof fn engagement_is_in_the_target_room(v: ChurnView, a: ChurnAnswer)
    requires
        v.answered(a).1 matches ChurnAsk::Finished(o) && o is DeployedAndEngaged,
    ensures
        a is FieldChecked,
        v.phase is Arrived,
        !v.target.is_defend,
        v.answered(a).0.in_room,
        v.answered(a).1 == ChurnAsk::Finished(
            ChurnOutcome::DeployedAndEngaged { generations: v.generation, engage_tick: v.tick },
        ),
{
}

/// A squad is fielded anew at most once per answer, and time moves on by at most a tick.
pub proof fn generations_grow_one_at_a_time(v: ChurnView, a: ChurnAnswer)
    requires
        v.wf(),
        v.tick < v.budget,
    ensures
        v.generation <= v.answered(a).0.generation <= v.generation + 1,
        v.tick <= v.answered(a).0.tick <= v.tick + 1,
        v.answered(a).0.budget == v.budget,
{
}

/// A lifecycle run in progress.
#[derive(Clone, Debug)]
pub struct ChurnRun {
    target: ChurnTarget,
    budget: u32,
    colony: Colony,
    tick: u32,
    generation: u32,
    max_present: usize,
    deadline: u32,
    prev_present: usize,
    engaged_once: bool,
    phase: Phase,
    gen_start: u32,
    travel_start: u32,
    present: usize,
    in_flight: bool,
    traveling: bool,
    progress: bool,
    in_room: bool,
    retreated: bool,
    combat: Vec<QueuedSpawn>,
    lane: usize,
}

impl View for ChurnRun {
    type V = ChurnView;

    closed spec fn view(&self) -> ChurnView {
        ChurnView {
            target: self.target,
            budget: self.budget,
            colony: self.colony@,
            tick: self.tick,
            generation: self.generation,
            max_present: self.max_present,
            deadline: self.deadline,
            prev_present: self.prev_present,
            engaged_once: self.engaged_once,
            phase: self.phase,
            gen_start: self.gen_start,
            travel_start: self.travel_start,
            present: self.present,
            in_flight: self.in_flight,
            traveling: self.traveling,
            progress: self.progress,
            in_room: self.in_room,
            retreated: self.retreated,
            combat: self.combat@,
            lane: self.lane,
        }
    }
}

/// The state before the first tick.
pub open spec fn started(s: ColonyFormingScenario, target: ChurnTarget) -> ChurnView {
    ChurnView {
        target,
        budget: s.budget_ticks,
        colony: fresh_colony(s.homes@, s.economy, s.slots as nat),
        tick: 0,
        generation: 0,
        max_present: 0,
        deadline: COMMITMENT_BUDGET,
        prev_present: 0,
        engaged_once: false,
        phase: Phase::Forming,
        gen_start: 0,
        travel_start: 0,
        present: 0,
        in_flight: false,
        traveling: false,
        progress: false,
        in_room: false,
        retreated: false,
        combat: seq![],
        lane: 0,
    }
}

impl ChurnTarget {
    /// The target with an empty-data window of `k` ticks.
    pub open spec fn with_window(self, k: u32) -> ChurnTarget {
        ChurnTarget { empty_dtos_on_arrival_ticks: k, ..self }
    }
}

impl ChurnView {
    /// The same state against a target with a window of `k` ticks.
    pub open spec fn with_window(self, k: u32) -> ChurnView {
        ChurnView { target: self.target.with_window(k), ..self }
    }
}

/// The run of a scenario against a target after these answers, and its next question.
pub open spec fn ran(
    s: ColonyFormingScenario,
    target: ChurnTarget,
    answers: Seq<ChurnAnswer>,
) -> (ChurnView, ChurnAsk)
    decreases answers.len(),
{
    if answers.len() == 0 {
        started(s, target).opened()
    } else {
        ran(s, target, answers.drop_last()).0.answered(answers.last())
    }
}

/// An empty-data window of any length changes nothing: whatever is answered, the runs with
/// and without it ask the same questions, are in the same state and come to the same end.
pub proof fn empty_window_changes_nothing(
    s: ColonyFormingScenario,
    target: ChurnTarget,
    k: u32,
    answers: Seq<ChurnAnswer>,
)
    ensures
        ran(s, target.with_window(k), answers).1 == ran(s, target, answers).1,
        ran(s, target.with_window(k), answers).0 == ran(s, target, answers).0.with_window(k),
    decreases answers.len(),
{
    if answers.len() > 0 {
        empty_window_changes_nothing(s, target, k, answers.drop_last());
        lemma_window_is_not_read(ran(s, target, answers.drop_last()).0, k, answers.last());
    }
}

/// Two runs that differ in the window at most, and ask the same.
spec fn mirrors(p: (ChurnView, ChurnAsk), q: (ChurnView, ChurnAsk), k: u32) -> bool {
    q.0 == p.0.with_window(k) && q.1 == p.1
}

proof fn lemma_window_is_not_read(v: ChurnView, k: u32, a: ChurnAnswer)
    ensures
        mirrors(v.answered(a), v.with_window(k).answered(a), k),
{
    match a {
        ChurnAnswer::FieldChecked(any) => lemma_window_field_checked(v, k, any),
        ChurnAnswer::Gated(open) => lemma_window_gated(v, k, open),
        ChurnAnswer::Reconciled(action) => lemma_window_reconciled(v, k, action),
        ChurnAnswer::FieldGiven(combat) => {
            lemma_window_next_lane(ChurnView { combat, lane: 0, ..v }, k);
        },
        ChurnAnswer::LaneDone(reply) => {
            let booked = ChurnView {
                colony: v.colony.booked(
                    v.lane as int,
                    v.tick,
                    reply.available_energy,
                    reply.spawned@,
                ),
                lane: (v.lane + 1) as usize,
                ..v
            };
            lemma_window_next_lane(booked, k);
        },
    }
}

proof fn lemma_window_next_tick(v: ChurnView, k: u32)
    ensures
        mirrors(v.next_tick(), v.with_window(k).next_tick(), k),
{
}

proof fn lemma_window_field_checked(v: ChurnView, k: u32, any: bool)
    ensures
        mirrors(v.field_checked(any), v.with_window(k).field_checked(any), k),
{
    let w = ChurnView { in_flight: v.colony.pipeline_busy() || any, ..v };
    match v.phase {
        Phase::Forming => {},
        Phase::Traveling { arrives_at } => lemma_window_reported(w.traveled(arrives_at), k),
        Phase::Arrived { dtos_clear_at } => lemma_window_arrived(w, k, dtos_clear_at),
    }
}

proof fn lemma_window_reported(v: ChurnView, k: u32)
    ensures
        mirrors(v.reported(), v.with_window(k).reported(), k),
{
}

proof fn lemma_window_arrived(v: ChurnView, k: u32, dtos_clear_at: u32)
    ensures
        mirrors(v.arrived(dtos_clear_at), v.with_window(k).arrived(dtos_clear_at), k),
{
    let w = ChurnView { in_room: true, ..v };
    lemma_window_reported(w, k);
    lemma_window_reported(
        ChurnView { engaged_once: true, retreated: v.target.abandon_fixes_enabled, ..w },
        k,
    );
}

proof fn lemma_window_gated(v: ChurnView, k: u32, open: bool)
    ensures
        mirrors(v.gated(open), v.with_window(k).gated(open), k),
{
}

proof fn lemma_window_kept(v: ChurnView, k: u32)
    ensures
        mirrors(v.kept(), v.with_window(k).kept(), k),
{
    lemma_window_next_tick(ChurnView { prev_present: v.present, ..v }, k);
}

proof fn lemma_window_gave_up(v: ChurnView, k: u32, mark: bool)
    ensures
        mirrors(v.gave_up(mark), v.with_window(k).gave_up(mark), k),
{
    lemma_window_next_tick(v.refielded(v.engaged_once), k);
    lemma_window_next_tick(v.refielded(false), k);
}

proof fn lemma_window_resolved(v: ChurnView, k: u32)
    ensures
        mirrors(v.resolved(), v.with_window(k).resolved(), k),
{
    lemma_window_next_tick(v.refielded(false), k);
}

proof fn lemma_window_reconciled(v: ChurnView, k: u32, action: ReconcileAction)
    ensures
        mirrors(v.reconciled(action), v.with_window(k).reconciled(action), k),
{
    match action {
        ReconcileAction::Retire { reason: RetireReason::GaveUp, mark_unwinnable, .. } => {
            lemma_window_gave_up(v, k, mark_unwinnable);
        },
        ReconcileAction::Retire { reason: RetireReason::Resolved, .. } => {
            lemma_window_resolved(v, k);
        },
        ReconcileAction::KeepRefreshLease => {
            lemma_window_kept(
                ChurnView { deadline: (v.tick + COMMITMENT_BUDGET) as u32, ..v },
                k,
            );
        },
        ReconcileAction::Keep => lemma_window_kept(v, k),
        _ => {},
    }
}

proof fn lemma_window_next_lane(v: ChurnView, k: u32)
    ensures
        mirrors(v.next_lane(), v.with_window(k).next_lane(), k),
{
    let (c, _) = v.colony.scanned(v.tick, v.lane as int);
    lemma_window_next_tick(ChurnView { colony: c, ..v }, k);
}

impl ChurnRun {
    /// The run at its first tick, and its first question.
    pub fn start(s: &ColonyFormingScenario, target: ChurnTarget) -> (r: (ChurnRun, ChurnRequest))
        requires
            homes_fit(s.homes@),
            s.budget_ticks + COMMITMENT_BUDGET <= u32::MAX,
            s.budget_ticks + target.travel_ticks <= u32::MAX,
        ensures
            (r.0@, r.1@) == started(*s, target).opened(),
            r.0@.wf(),
            !(r.1 is Finished) ==> r.0@.tick < r.0@.budget,
    {
        let colony: Colony = Colony::new(s);
        let mut run = ChurnRun {
            target,
            budget: s.budget_ticks,
            colony,
            tick: 0,
            generation: 0,
            max_present: 0,
            deadline: COMMITMENT_BUDGET,
            prev_present: 0,
            engaged_once: false,
            phase: Phase::Forming,
            gen_start: 0,
            travel_start: 0,
            present: 0,
            in_flight: false,
            traveling: false,
            progress: false,
            in_room: false,
            retreated: false,
            combat: Vec::new(),
            lane: 0,
        };
        assert(run@ =~= started(*s, target));
        let first: ChurnRequest = run.open_tick();
        (run, first)
    }

    fn never_deployed(&self) -> (r: ChurnOutcome)
        ensures
            r == self@.never_deployed(),
    {
        ChurnOutcome::ChurnedNeverDeployed {
            generations: self.generation,
            max_present: self.max_present,
        }
    }

    fn verdict(&self) -> (r: ChurnOutcome)
        ensures
            r == self@.verdict(),
    {
        match self.phase {
            Phase::Forming => self.never_deployed(),
            Phase::Traveling { .. } => ChurnOutcome::LapsedInTravel {
                generations: self.generation,
            },
            Phase::Arrived { .. } => ChurnOutcome::LapsedOnArrival {
                generations: self.generation,
            },
        }
    }

    fn open_tick(&mut self) -> (r: ChurnRequest)
        requires
            old(self)@.wf(),
        ensures
            (final(self)@, r@) == old(self)@.opened(),
            final(self)@.wf(),
            final(self)@.tick == old(self)@.tick,
            !(r is Finished) ==> old(self)@.tick < old(self)@.budget,
    {
        if self.tick >= self.budget {
            return ChurnRequest::Finished(self.verdict());
        }
        let ghost v0 = self@;
        let _arrived: Vec<bool> = self.colony.advance(self.tick);
        let present: usize = self.colony.present();
        self.present = present;
        if present >= self.max_present {
            self.max_present = present;
        }
        self.traveling = false;
        self.progress = false;
        self.in_room = false;
        self.retreated = false;
        assert(self@ =~= v0.opened().0);
        ChurnRequest::FieldCheck { filled: copied(&self.colony.filled) }
    }

    /// Answer to [`ChurnRequest::FieldCheck`]: whether any unfilled slot would be
    /// fielded.
    pub fn field_checked(&mut self, any: bool) -> (r: ChurnRequest)
        requires
            old(self)@.wf(),
        ensures
            (final(self)@, r@) == old(self)@.field_checked(any),
            final(self)@.wf(),
            final(self)@.tick == old(self)@.tick,
    {
        let ghost v0 = self@;
        self.in_flight = self.colony.pipeline_busy() || any;
        let ghost v1 = self@;
        assert(v1 =~= ChurnView { in_flight: v0.colony.pipeline_busy() || any, ..v0 });
        match self.phase {
            Phase::Forming => {
                let uncontested: bool = self.target.uncontested && !(self.target.commit_intel_empty
                    && self.target.abandon_fixes_enabled);
                ChurnRequest::Gate {
                    present: self.present,
                    slots: self.colony.filled.len(),
                    uncontested,
                }
            },
            Phase::Traveling { arrives_at } => self.travel(arrives_at),
            Phase::Arrived { dtos_clear_at } => self.stand(dtos_clear_at),
        }
    }

    fn travel(&mut self, arrives_at: u32) -> (r: ChurnRequest)
        requires
            old(self)@.wf(),
        ensures
            (final(self)@, r@) == old(self)@.traveled(arrives_at).reported(),
            final(self)@.wf(),
            final(self)@.tick == old(self)@.tick,
    {
        let ghost v0 = self@;
        self.traveling = true;
        self.progress = true;
        if self.target.target_visible_with_hostile_en_route
            && !self.target.latch_engaged_in_room_only {
            self.engaged_once = true;
        }
        if self.tick >= arrives_at {
            self.phase = Phase::Arrived { dtos_clear_at: self.tick };
        }
        assert(self@ =~= v0.traveled(arrives_at));
        self.report()
    }

    fn stand(&mut self, dtos_clear_at: u32) -> (r: ChurnRequest)
        requires
            old(self)@.wf(),
        ensures
            (final(self)@, r@) == old(self)@.arrived(dtos_clear_at),
            final(self)@.wf(),
            final(self)@.tick == old(self)@.tick,
    {
        let ghost v0 = self@;
        self.in_room = true;
        let ghost v1 = self@;
        assert(v1 =~= ChurnView { in_room: true, ..v0 });
        if !self.target.is_defend && self.tick >= dtos_clear_at {
            if self.target.arrival_has_towers && !self.target.winnable_retreat_in_room {
                self.engaged_once = true;
                self.retreated = self.target.abandon_fixes_enabled;
                assert(self@ =~= ChurnView {
                    engaged_once: true,
                    retreated: v0.target.abandon_fixes_enabled,
                    ..v1
                });
            } else {
                return ChurnRequest::Finished(
                    ChurnOutcome::DeployedAndEngaged {
                        generations: self.generation,
                        engage_tick: self.tick,
                    },
                );
            }
        }
        self.report()
    }

    /// Answer to [`ChurnRequest::Gate`]: whether the squad may depart.
    pub fn gated(&mut self, open: bool) -> (r: ChurnRequest)
        requires
            old(self)@.wf(),
        ensures
            (final(self)@, r@) == old(self)@.gated(open),
            final(self)@.wf(),
            final(self)@.tick == old(self)@.tick,
    {
        if open {
            self.travel_start = self.tick;
            self.phase = Phase::Traveling { arrives_at: self.tick + self.target.travel_ticks };
        }
        self.report()
    }

    fn holding(&self) -> (r: bool)
        ensures
            r == self@.holding(),
    {
        self.target.garrison_holds && self.target.is_defend && self.in_room
    }

    fn snapshot(&self) -> (r: ReconcileSnapshot)
        ensures
            r == self@.snapshot(),
    {
        let has_members: bool = self.present > 0 || self.colony.pipeline_busy();
        let at_home: bool = matches!(self.phase, Phase::Forming);
        let forming: bool = has_members && !self.engaged_once && at_home && self.present
            < self.colony.filled.len();
        ReconcileSnapshot {
            objective_gone: false,
            duplicate: false,
            is_defend: self.target.is_defend,
            deadline_lapsed: self.tick >= self.deadline,
            wiped: false,
            has_focus: false,
            engaged_once: self.engaged_once,
            in_target_room: self.in_room,
            has_members,
            forming,
            forming_progress: forming && self.present > self.prev_present,
            forming_in_flight: forming && self.in_flight,
            forming_budget_remaining: ticks_since(self.tick, self.gen_start) < MAX_FORMING_BUDGET,
            traveling: self.traveling,
            travel_progress: self.progress,
            travel_budget_remaining: ticks_since(self.tick, self.travel_start) < MAX_TRAVEL_BUDGET,
            holding_station: self.holding(),
            declaiming: false,
            reassign_available: false,
            retreated_from_contact: self.retreated,
        }
    }

    fn report(&self) -> (r: ChurnRequest)
        requires
            self@.wf(),
        ensures
            (self@, r@) == self@.reported(),
    {
        if self.holding() && self.budget - self.tick <= 1 {
            ChurnRequest::Finished(ChurnOutcome::Garrisoned { generations: self.generation })
        } else {
            ChurnRequest::Reconcile(self.snapshot())
        }
    }

    fn refield(&mut self, engaged_once: bool) -> (r: ChurnRequest)
        requires
            old(self)@.wf(),
            old(self)@.tick < old(self)@.budget,
        ensures
            (final(self)@, r@) == old(self)@.refielded(engaged_once).next_tick(),
            final(self)@.wf(),
            !(r is Finished) ==> final(self)@.tick < final(self)@.budget,
    {
        let ghost v0 = self@;
        self.colony.refield();
        self.generation = self.generation + 1;
        self.deadline = self.tick + COMMITMENT_BUDGET;
        self.prev_present = 0;
        self.engaged_once = engaged_once;
        self.phase = Phase::Forming;
        self.gen_start = self.tick;
        self.tick = self.tick + 1;
        assert(self@ =~= ChurnView {
            tick: (v0.tick + 1) as u32,
            ..v0.refielded(engaged_once)
        });
        self.open_tick()
    }

    fn keep(&mut self) -> (r: ChurnRequest)
        requires
            old(self)@.wf(),
            old(self)@.tick < old(self)@.budget,
        ensures
            (final(self)@, r@) == old(self)@.kept(),
            final(self)@.wf(),
            !(r is Finished) ==> final(self)@.tick < final(self)@.budget,
    {
        let ghost v0 = self@;
        self.prev_present = self.present;
        assert(self@ =~= ChurnView { prev_present: v0.present, ..v0 });
        if matches!(self.phase, Phase::Forming) {
            ChurnRequest::FieldSpawn { filled: copied(&self.colony.filled) }
        } else {
            self.next_tick()
        }
    }

    fn give_up(&mut self, mark_unwinnable: bool) -> (r: ChurnRequest)
        requires
            old(self)@.wf(),
            old(self)@.tick < old(self)@.budget,
        ensures
            (final(self)@, r@) == old(self)@.gave_up(mark_unwinnable),
            final(self)@.wf(),
            !(r is Finished) ==> final(self)@.tick < final(self)@.budget,
    {
        if self.engaged_once && self.in_room && self.retreated && mark_unwinnable {
            return ChurnRequest::Finished(
                ChurnOutcome::AbandonedOnContact { generations: self.generation },
            );
        }
        if matches!(self.phase, Phase::Forming) {
            return self.refield(self.engaged_once);
        }
        if self.engaged_once && !self.in_room {
            return ChurnRequest::Finished(
                ChurnOutcome::LatchedEnRoute { generations: self.generation },
            );
        }
        if self.target.is_defend && self.in_room {
            return self.refield(false);
        }
        ChurnRequest::Finished(self.verdict())
    }

    fn resolve(&mut self) -> (r: ChurnRequest)
        requires
            old(self)@.wf(),
            old(self)@.tick < old(self)@.budget,
        ensures
            (final(self)@, r@) == old(self)@.resolved(),
            final(self)@.wf(),
            !(r is Finished) ==> final(self)@.tick < final(self)@.budget,
    {
        if self.engaged_once && self.in_room && self.target.arrival_has_towers {
            if self.generation + 1 >= 3 {
                return ChurnRequest::Finished(
                    ChurnOutcome::LapsedOnVacuousCommit { generations: self.generation + 1 },
                );
            }
            return self.refield(false);
        }
        ChurnRequest::Finished(self.never_deployed())
    }

    /// Answer to [`ChurnRequest::Reconcile`]: the judgement on the squad.
    pub fn reconciled(&mut self, action: ReconcileAction) -> (r: ChurnRequest)
        requires
            old(self)@.wf(),
            old(self)@.tick < old(self)@.budget,
            !(action is Reassign),
        ensures
            (final(self)@, r@) == old(self)@.reconciled(action),
            final(self)@.wf(),
            !(r is Finished) ==> final(self)@.tick < final(self)@.budget,
    {
        let ghost v0 = self@;
        match action {
            ReconcileAction::Retire { reason: RetireReason::GaveUp, mark_unwinnable, .. } => {
                self.give_up(mark_unwinnable)
            },
            ReconcileAction::Retire { reason: RetireReason::Resolved, .. } => self.resolve(),
            ReconcileAction::KeepRefreshLease => {
                self.deadline = self.tick + COMMITMENT_BUDGET;
                assert(self@ =~= ChurnView {
                    deadline: (v0.tick + COMMITMENT_BUDGET) as u32,
                    ..v0
                });
                self.keep()
            },
            ReconcileAction::Keep => self.keep(),
            _ => ChurnRequest::Finished(self.never_deployed()),
        }
    }

    fn next_tick(&mut self) -> (r: ChurnRequest)
        requires
            old(self)@.wf(),
            old(self)@.tick < old(self)@.budget,
        ensures
            (final(self)@, r@) == old(self)@.next_tick(),
            final(self)@.wf(),
            !(r is Finished) ==> final(self)@.tick < final(self)@.budget,
    {
        let ghost v0 = self@;
        self.tick = self.tick + 1;
        assert(self@ =~= ChurnView { tick: (v0.tick + 1) as u32, ..v0 });
        self.open_tick()
    }

    fn next_lane(&mut self) -> (r: ChurnRequest)
        requires
            old(self)@.wf(),
            old(self)@.tick < old(self)@.budget,
        ensures
            (final(self)@, r@) == old(self)@.next_lane(),
            final(self)@.wf(),
            !(r is Finished) ==> final(self)@.tick < final(self)@.budget,
            r is RunLane ==> final(self)@.lane < final(self)@.colony.homes.len(),
    {
        let ghost v0 = self@;
        proof {
            lemma_scan_keeps(v0.colony, v0.tick, v0.lane as int);
        }
        let offer: Option<LaneOffer> = self.colony.next_offer(
            self.lane,
            self.tick,
            &self.combat,
            true,
        );
        match offer {
            None => {
                assert(self@ =~= ChurnView {
                    colony: v0.colony.scanned(v0.tick, v0.lane as int).0,
                    ..v0
                });
                self.next_tick()
            },
            Some(o) => {
                self.lane = o.home;
                assert(self@ =~= v0.next_lane().0);
                let r = ChurnRequest::RunLane(o);
                assert(r@ =~= v0.next_lane().1);
                r
            },
        }
    }

    /// Answer to [`ChurnRequest::FieldSpawn`]: the slots to spawn.
    pub fn field_given(&mut self, combat: Vec<QueuedSpawn>) -> (r: ChurnRequest)
        requires
            old(self)@.wf(),
            old(self)@.tick < old(self)@.budget,
        ensures
            (final(self)@, r@) == old(self)@.field_given(combat@),
            final(self)@.wf(),
            !(r is Finished) ==> final(self)@.tick < final(self)@.budget,
            r is RunLane ==> final(self)@.lane < final(self)@.colony.homes.len(),
    {
        let ghost v0 = self@;
        self.combat = combat;
        self.lane = 0;
        assert(self@ =~= ChurnView { combat: combat@, lane: 0, ..v0 });
        self.next_lane()
    }

    /// Answer to [`ChurnRequest::RunLane`]: what the lane did.
    pub fn lane_done(&mut self, reply: &LaneReply) -> (r: ChurnRequest)
        requires
            old(self)@.wf(),
            old(self)@.tick < old(self)@.budget,
            old(self)@.lane < old(self)@.colony.homes.len(),
            reply_fits(
                *reply,
                old(self)@.tick,
                old(self)@.colony.homes[old(self)@.lane as int].income,
            ),
        ensures
            (final(self)@, r@) == old(self)@.lane_done(*reply),
            final(self)@.wf(),
            !(r is Finished) ==> final(self)@.tick < final(self)@.budget,
            r is RunLane ==> final(self)@.lane < final(self)@.colony.homes.len(),
    {
        let ghost v0 = self@;
        proof {
            lemma_booked_keeps(
                v0.colony,
                v0.lane as int,
                v0.tick,
                reply.available_energy,
                reply.spawned@,
            );
        }
        self.colony.settle(self.lane, self.tick, reply);
        self.lane = self.lane + 1;
        assert(self@ =~= ChurnView {
            colony: v0.colony.booked(
                v0.lane as int,
                v0.tick,
                reply.available_energy,
                reply.spawned@,
            ),
            lane: (v0.lane + 1) as usize,
            ..v0
        });
        self.next_lane()
    }
}

// ── What each question and each answer is for ──────────────────────────────

/// The departure gate is asked about the members at home and the whole roster. A target that
/// is declared clear is gated as clear, unless the squad commits on an empty view and the
/// fixes tell it that an empty view proves nothing.
pub proof fn gate_is_asked_as_the_target_is_known(v: ChurnView, any: bool)
    requires
        v.phase is Forming,
    ensures
        v.field_checked(any).1 matches ChurnAsk::Gate { present, slots, uncontested } && {
            &&& present == v.present
            &&& slots == v.colony.filled.len()
            &&& !v.target.commit_intel_empty ==> uncontested == v.target.uncontested
            &&& v.target.commit_intel_empty && !v.target.abandon_fixes_enabled ==> uncontested
                == v.target.uncontested
            &&& v.target.commit_intel_empty && v.target.abandon_fixes_enabled ==> !uncontested
        },
        v.field_checked(any).0.phase is Forming,
        v.field_checked(any).0.colony == v.colony,
        v.field_checked(any).0.in_flight <==> any || v.colony.completing.len() > 0
            || v.colony.syncing.len() > 0,
{
}

/// An open gate sends the squad off, to arrive after its travel time; a closed one keeps it
/// at home. The squad reports either way.
pub proof fn gate_decides_the_departure(v: ChurnView, open: bool)
    requires
        v.phase is Forming,
        v.tick + v.target.travel_ticks <= u32::MAX,
    ensures
        open ==> v.gated(open).0.phase == (Phase::Traveling {
            arrives_at: (v.tick + v.target.travel_ticks) as u32,
        }) && v.gated(open).0.travel_start == v.tick,
        !open ==> v.gated(open).0 == v,
        !v.in_room ==> v.gated(open).1 is Reconcile,
        v.gated(open).0.colony == v.colony,
        v.gated(open).0.generation == v.generation,
        v.gated(open).0.deadline == v.deadline,
{
}

/// A squad under way arrives when its travel time is over and not before, and reports that
/// it travels.
pub proof fn travel_takes_its_time(v: ChurnView, arrives_at: u32, any: bool)
    requires
        v.phase == (Phase::Traveling { arrives_at }),
        !v.in_room,
    ensures
        ({
            let (w, ask) = v.field_checked(any);
            &&& v.tick >= arrives_at ==> w.phase == (Phase::Arrived { dtos_clear_at: v.tick })
            &&& v.tick < arrives_at ==> w.phase == v.phase
            &&& ask matches ChurnAsk::Reconcile(s) && s.traveling && s.travel_progress
                && !s.in_target_room && !s.forming && s.engaged_once == w.engaged_once
            &&& w.engaged_once <==> v.engaged_once
                || (v.target.target_visible_with_hostile_en_route
                && !v.target.latch_engaged_in_room_only)
        }),
{
}

/// In the target room a squad that does not defend engages at once, unless towers make the
/// fight a lost one: then it has engaged and falls back, and says so where the fixes let it.
pub proof fn arrival_engages_or_falls_back(v: ChurnView, dtos_clear_at: u32, any: bool)
    requires
        v.phase == (Phase::Arrived { dtos_clear_at }),
        dtos_clear_at <= v.tick,
    ensures
        !v.target.is_defend && (!v.target.arrival_has_towers || v.target.winnable_retreat_in_room)
            ==> v.field_checked(any).1 == ChurnAsk::Finished(
            ChurnOutcome::DeployedAndEngaged { generations: v.generation, engage_tick: v.tick },
        ),
        !v.target.is_defend && v.target.arrival_has_towers && !v.target.winnable_retreat_in_room
            ==> (v.field_checked(any).1 matches ChurnAsk::Reconcile(s) && s.engaged_once
            && s.in_target_room && !s.holding_station && (s.retreated_from_contact
            <==> v.target.abandon_fixes_enabled)),
        v.target.is_defend && v.target.garrison_holds && v.tick + 1 >= v.budget
            ==> v.field_checked(any).1 == ChurnAsk::Finished(
            ChurnOutcome::Garrisoned { generations: v.generation },
        ),
        v.target.is_defend && v.tick + 1 < v.budget ==> (v.field_checked(any).1
            matches ChurnAsk::Reconcile(s) && s.in_target_room && s.engaged_once
            == v.engaged_once && (s.holding_station <==> v.target.garrison_holds)
            && s.retreated_from_contact == v.retreated),
{
}

/// What a report says of the squad, fact by fact.
pub proof fn report_tells_the_facts(v: ChurnView, a: ChurnAnswer)
    requires
        a is FieldChecked || a is Gated,
        v.answered(a).1 is Reconcile,
    ensures
        ({
            let w = v.answered(a).0;
            let s = v.answered(a).1->Reconcile_0;
            let away = w.colony.completing.len() > 0 || w.colony.syncing.len() > 0;
            &&& !s.objective_gone && !s.duplicate && !s.wiped && !s.has_focus && !s.declaiming
            &&& !s.reassign_available
            &&& s.is_defend == v.target.is_defend
            &&& s.deadline_lapsed <==> v.tick >= w.deadline
            &&& s.engaged_once == w.engaged_once
            &&& s.in_target_room == w.in_room
            &&& s.has_members <==> w.present > 0 || away
            &&& s.forming <==> (w.present > 0 || away) && !w.engaged_once && w.phase is Forming
                && w.present < w.colony.filled.len()
            &&& s.forming_progress <==> s.forming && w.present > w.prev_present
            &&& s.forming_in_flight <==> s.forming && w.in_flight
            &&& w.tick >= w.gen_start ==> (s.forming_budget_remaining <==> w.tick < w.gen_start
                + 3000)
            &&& w.tick >= w.travel_start ==> (s.travel_budget_remaining <==> w.tick
                < w.travel_start + 1000)
            &&& s.traveling == w.traveling
            &&& s.travel_progress == w.progress
            &&& s.retreated_from_contact == w.retreated
            &&& s.holding_station <==> w.target.garrison_holds && w.target.is_defend && w.in_room
        }),
{
}

/// A squad that gives up while it forms is fielded anew with a fresh lease of four hundred
/// ticks: nobody is at home, nothing is under way, the banks are kept.
pub proof fn giving_up_at_home_fields_anew(v: ChurnView, withdraw: bool, mark: bool)
    requires
        v.phase is Forming,
        !v.retreated,
        v.tick + 1 < v.budget,
        v.budget <= u32::MAX - 400,
        v.generation < u32::MAX,
    ensures
        ({
            let (w, ask) = v.reconciled(
                ReconcileAction::Retire { reason: RetireReason::GaveUp, withdraw, mark_unwinnable: mark },
            );
            &&& w.generation == v.generation + 1
            &&& w.tick == v.tick + 1
            &&& w.deadline == v.tick + 400
            &&& w.gen_start == v.tick
            &&& w.phase is Forming
            &&& w.prev_present == 0
            &&& w.engaged_once == v.engaged_once
            &&& w.colony.avail == v.colony.avail
            &&& w.colony.completing.len() == 0
            &&& ask is FieldCheck
        }),
{
    crate::colony::refielding_drops_the_roster(v.colony);
    crate::colony::an_idle_pipeline_stays_idle(v.colony.refielded(), (v.tick + 1) as u32);
}

/// A squad that gives up on its way is over: frozen by a latch, or lapsed at its stage. A
/// lost fight that is marked so is an abandonment.
pub proof fn giving_up_away_from_home_ends_the_run(v: ChurnView, withdraw: bool, mark: bool)
    requires
        !(v.phase is Forming),
        !v.target.is_defend,
    ensures
        ({
            let r = v.reconciled(
                ReconcileAction::Retire { reason: RetireReason::GaveUp, withdraw, mark_unwinnable: mark },
            ).1;
            let abandons = v.engaged_once && v.in_room && v.retreated && mark;
            let g = v.generation;
            &&& abandons ==> r == ChurnAsk::Finished(
                ChurnOutcome::AbandonedOnContact { generations: g },
            )
            &&& !abandons && v.engaged_once && !v.in_room ==> r == ChurnAsk::Finished(
                ChurnOutcome::LatchedEnRoute { generations: g },
            )
            &&& !abandons && !(v.engaged_once && !v.in_room) && v.phase is Traveling ==> r
                == ChurnAsk::Finished(ChurnOutcome::LapsedInTravel { generations: g })
            &&& !abandons && !(v.engaged_once && !v.in_room) && v.phase is Arrived ==> r
                == ChurnAsk::Finished(ChurnOutcome::LapsedOnArrival { generations: g })
        }),
{
}

/// A room taken for cleared that is still towered is tried again, and at the third time
/// given up as lapsed; one without towers ends the run.
pub proof fn a_vacuous_clearing_is_tried_thrice(v: ChurnView, withdraw: bool, mark: bool)
    requires
        v.tick < v.budget,
        v.budget <= u32::MAX - 400,
        v.generation < u32::MAX,
    ensures
        ({
            let (w, ask) = v.reconciled(
                ReconcileAction::Retire { reason: RetireReason::Resolved, withdraw, mark_unwinnable: mark },
            );
            let again = v.engaged_once && v.in_room && v.target.arrival_has_towers;
            &&& again && v.generation >= 2 ==> ask == ChurnAsk::Finished(
                ChurnOutcome::LapsedOnVacuousCommit { generations: (v.generation + 1) as u32 },
            )
            &&& again && v.generation < 2 ==> w.generation == v.generation + 1 && w.phase is Forming
                && !w.engaged_once && w.tick == v.tick + 1 && w.deadline == v.tick + 400
            &&& !again ==> ask == ChurnAsk::Finished(
                ChurnOutcome::ChurnedNeverDeployed {
                    generations: v.generation,
                    max_present: v.max_present,
                },
            )
        }),
{
}

/// A kept squad goes on: at home its open slots are fielded, away the next tick opens. Only
/// a refreshed lease moves the deadline, to four hundred ticks from now.
pub proof fn a_kept_squad_goes_on(v: ChurnView, refresh: bool)
    requires
        v.tick + 1 < v.budget,
        v.budget <= u32::MAX - 400,
    ensures
        ({
            let action = if refresh {
                ReconcileAction::KeepRefreshLease
            } else {
                ReconcileAction::Keep
            };
            let (w, ask) = v.reconciled(action);
            &&& refresh ==> w.deadline == v.tick + 400
            &&& !refresh ==> w.deadline == v.deadline
            &&& w.generation == v.generation
            &&& w.phase == v.phase
            &&& w.prev_present == v.present
            &&& v.phase is Forming ==> ask == (ChurnAsk::FieldSpawn { filled: v.colony.filled })
                && w.tick == v.tick
            &&& !(v.phase is Forming) ==> ask is FieldCheck && w.tick == v.tick + 1
        }),
{
}

/// A run whose time is up ends by its stage: at home it churned, under way it lapsed in
/// travel, in the room on arrival.
pub proof fn time_up_ends_by_stage(v: ChurnView)
    requires
        v.tick >= v.budget,
    ensures
        v.phase is Forming ==> v.opened().1 == ChurnAsk::Finished(
            ChurnOutcome::ChurnedNeverDeployed {
                generations: v.generation,
                max_present: v.max_present,
            },
        ),
        v.phase is Traveling ==> v.opened().1 == ChurnAsk::Finished(
            ChurnOutcome::LapsedInTravel { generations: v.generation },
        ),
        v.phase is Arrived ==> v.opened().1 == ChurnAsk::Finished(
            ChurnOutcome::LapsedOnArrival { generations: v.generation },
        ),
{
}

/// A new tick counts the members that are there, keeps the most that ever were, and starts
/// from a clean report.
pub proof fn a_tick_counts_the_members(v: ChurnView)
    requires
        v.tick < v.budget,
        v.colony.filled.len() <= usize::MAX,
    ensures
        ({
            let (w, ask) = v.opened();
            &&& ask == (ChurnAsk::FieldCheck { filled: w.colony.filled })
            &&& w.present == count_true(w.colony.filled)
            &&& w.max_present >= w.present
            &&& w.max_present >= v.max_present
            &&& w.max_present == w.present || w.max_present == v.max_present
            &&& !w.traveling && !w.progress && !w.in_room && !w.retreated
            &&& w.tick == v.tick
            &&& w.phase == v.phase
            &&& w.deadline == v.deadline
            &&& w.generation == v.generation
        }),
{
    crate::colony::lemma_count_bound(v.colony.advanced(v.tick).filled);
}

/// A run starts at home with nobody there, on the first tick of its first lease.
pub proof fn a_run_starts_at_home(s: ColonyFormingScenario, t: ChurnTarget)
    ensures
        ({
            let v = started(s, t);
            &&& v.phase is Forming
            &&& v.tick == 0
            &&& v.generation == 0
            &&& v.deadline == 400
            &&& !v.engaged_once
            &&& v.target == t
            &&& v.budget == s.budget_ticks
            &&& v.colony.filled.len() == s.slots
            &&& v.present == 0 && v.max_present == 0 && v.prev_present == 0
            &&& v.gen_start == 0 && v.travel_start == 0 && v.lane == 0
            &&& !v.in_flight && !v.traveling && !v.progress && !v.in_room && !v.retreated
            &&& v.combat.len() == 0
        }),
{
}

/// Once the slots to spawn are known, the first idle lane is asked to run, with what its home
/// has banked; and after a lane that spawned nothing the next one is.
pub proof fn idle_lanes_are_asked_in_turn(
    v: ChurnView,
    combat: Seq<QueuedSpawn>,
    reply: LaneReply,
    h: int,
)
    requires
        0 <= h < v.colony.homes.len() <= usize::MAX,
        v.colony.avail.len() == v.colony.homes.len(),
        v.colony.busy_until.len() == v.colony.homes.len(),
        v.tick >= v.colony.busy_until[h],
        reply.spawned@.len() == 0,
    ensures
        (forall|k: int| 0 <= k < h ==> v.tick < #[trigger] v.colony.busy_until[k]) ==> {
            &&& v.field_given(combat).1 matches ChurnAsk::RunLane { home, energy, capacity, .. } && {
                &&& home == h
                &&& energy == banked(v.colony.avail[h], v.colony.homes[h])
                &&& capacity == v.colony.homes[h].energy_capacity
            }
            &&& v.field_given(combat).0.combat == combat
            &&& v.field_given(combat).0.lane == h
        },
        h == v.lane + 1 ==> (v.lane_done(reply).1 matches ChurnAsk::RunLane { home, .. } && home == h),
{
    scan_stops_at_the_first_free_lane(v.colony, v.tick, 0, h);
    let (_, at) = v.colony.scanned(v.tick, 0);
    if forall|k: int| 0 <= k < h ==> v.tick < #[trigger] v.colony.busy_until[k] {
        assert(at == h);
    }
    if h == v.lane + 1 {
        scan_stops_at_the_first_free_lane(v.colony, v.tick, h, h);
    }
}

} // verus!
