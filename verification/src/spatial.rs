//! The scattered-homes lifecycle: members spawn at different homes, converge on a
//! shared rally, and assault as a body. Enemy-held rooms kill members in transit.
//!
//! [`SpatialRun`] is driven by questions. Each method takes the answer to the last
//! question and returns the next one, until the run is finished.

use crate::colony::{
    arrivals, banked, count_true, fresh_colony, homes_fit, lemma_booked_keeps, lemma_scan_keeps,
    reply_fits, scan_stops_at_the_first_free_lane, Colony, ColonyFormingScenario, ColonyView,
    LaneOffer, LaneReply, QueuedSpawn,
};
use crate::lease::{
    elapsed, ticks_since, ChurnOutcome, ReconcileAction, ReconcileSnapshot, RetireReason,
    COMMITMENT_BUDGET, MAX_FORMING_BUDGET, MAX_TRAVEL_BUDGET,
};
use crate::lists::copied;
use crate::position::WPos;
use crate::travel::{
    any_in_room, closing, collect_flagged, flagged, is_closing, least, least_of,
    lists_room, measure_rooms, room_dists, room_listed, someone_in_room,
};
use vstd::prelude::*;

verus! {

/// A scattered-homes travel scenario.
#[derive(Clone, Debug)]
pub struct SpatialTravel {
    /// Home of each member.
    pub homes: Vec<WPos>,
    /// The shared rally on the approach.
    pub rally: WPos,
    pub target: WPos,
    /// The target is known to be clear, so a partial roster may go.
    pub uncontested: bool,
    /// Members walk alone to the shared rally. Without it only members in the
    /// formation anchor's room move.
    pub use_shared_rally: bool,
    /// Rooms in which members die.
    pub enemy_held_rooms: Vec<(i32, i32)>,
    /// The first quorum commits the assault for good, and members in the target
    /// room count as gathered.
    pub latch_assault: bool,
}

/// What the run needs to know next.
#[derive(Clone, Debug)]
pub enum SpatialRequest {
    /// Would any unfilled slot be fielded?
    FieldCheck { filled: Vec<bool> },
    /// May a squad with members at these positions depart?
    Gate { positions: Vec<WPos>, slots: usize, uncontested: bool },
    /// Is the quorum met, and how many members stand at the rally?
    Gather {
        positions: Vec<WPos>,
        rally: WPos,
        slots: usize,
        uncontested: bool,
        has_fighter: bool,
    },
    Reconcile(ReconcileSnapshot),
    /// Which slots are fielded, with which bodies?
    FieldSpawn { filled: Vec<bool> },
    RunLane(LaneOffer),
    Finished(ChurnOutcome),
}

/// A request over sequences.
#[verifier::ext_equal]
pub enum SpatialAsk {
    FieldCheck { filled: Seq<bool> },
    Gate { positions: Seq<WPos>, slots: nat, uncontested: bool },
    Gather {
        positions: Seq<WPos>,
        rally: WPos,
        slots: nat,
        uncontested: bool,
        has_fighter: bool,
    },
    Reconcile(ReconcileSnapshot),
    FieldSpawn { filled: Seq<bool> },
    RunLane { home: int, energy: u32, capacity: u32, queue: Seq<QueuedSpawn> },
    Finished(ChurnOutcome),
}

impl View for SpatialRequest {
    type V = SpatialAsk;

    open spec fn view(&self) -> SpatialAsk {
        match *self {
            SpatialRequest::FieldCheck { filled } => SpatialAsk::FieldCheck { filled: filled@ },
            SpatialRequest::Gate { positions, slots, uncontested } => SpatialAsk::Gate {
                positions: positions@,
                slots: slots as nat,
                uncontested,
            },
            SpatialRequest::Gather { positions, rally, slots, uncontested, has_fighter } => {
                SpatialAsk::Gather {
                    positions: positions@,
                    rally,
                    slots: slots as nat,
                    uncontested,
                    has_fighter,
                }
            },
            SpatialRequest::Reconcile(s) => SpatialAsk::Reconcile(s),
            SpatialRequest::FieldSpawn { filled } => SpatialAsk::FieldSpawn { filled: filled@ },
            SpatialRequest::RunLane(o) => SpatialAsk::RunLane {
                home: o.home as int,
                energy: o.available_energy,
                capacity: o.energy_capacity,
                queue: o.queue@,
            },
            SpatialRequest::Finished(o) => SpatialAsk::Finished(o),
        }
    }
}

// ── One member ─────────────────────────────────────────────────────────────

/// A slot's member: whether it is there, and where.
#[derive(Clone, Copy, Debug, PartialEq, Eq, Structural)]
pub struct Walker {
    pub filled: bool,
    pub pos: WPos,
}

/// A member that stepped into an enemy-held room is lost; its slot opens again at
/// home.
pub open spec fn survived(w: Walker, home: WPos, enemy: Seq<(i32, i32)>) -> Walker {
    if w.filled && lists_room(enemy, w.pos.room_of()) {
        Walker { filled: false, pos: home }
    } else {
        w
    }
}

/// In the assault members follow the anchor. The first slot withstands enemy-held
/// rooms, the others do not.
pub open spec fn marched(
    w: Walker,
    lead: bool,
    home: WPos,
    anchor: WPos,
    enemy: Seq<(i32, i32)>,
) -> Walker {
    if !w.filled {
        w
    } else {
        let moved = Walker { filled: true, pos: w.pos.stepped(anchor) };
        if lead {
            moved
        } else {
            survived(moved, home, enemy)
        }
    }
}

/// Before the assault members walk to the rally. Without the shared rally a member
/// outside the anchor's room is frozen.
pub open spec fn walked(
    w: Walker,
    home: WPos,
    rally: WPos,
    anchor: WPos,
    shared: bool,
    enemy: Seq<(i32, i32)>,
) -> Walker {
    if !w.filled {
        w
    } else {
        let pos = if shared || w.pos.room_of() == anchor.room_of() {
            w.pos.stepped(rally)
        } else {
            w.pos
        };
        survived(Walker { filled: true, pos }, home, enemy)
    }
}

fn march_one(
    w: Walker,
    lead: bool,
    home: WPos,
    anchor: WPos,
    enemy: &Vec<(i32, i32)>,
) -> (r: Walker)
    ensures
        r == marched(w, lead, home, anchor, enemy@),
{
    if !w.filled {
        return w;
    }
    let pos: WPos = w.pos.step_toward(anchor);
    if !lead && room_listed(enemy, pos.room()) {
        Walker { filled: false, pos: home }
    } else {
        Walker { filled: true, pos }
    }
}

fn walk_one(
    w: Walker,
    home: WPos,
    rally: WPos,
    anchor: WPos,
    shared: bool,
    enemy: &Vec<(i32, i32)>,
) -> (r: Walker)
    ensures
        r == walked(w, home, rally, anchor, shared, enemy@),
{
    if !w.filled {
        return w;
    }
    let pos: WPos = if shared || w.pos.same_room(anchor) {
        w.pos.step_toward(rally)
    } else {
        w.pos
    };
    if room_listed(enemy, pos.room()) {
        Walker { filled: false, pos: home }
    } else {
        Walker { filled: true, pos }
    }
}

// ── The run's state ────────────────────────────────────────────────────────

/// The state of a run.
#[verifier::ext_equal]
pub struct SpatialView {
    pub plan: SpatialTravel,
    pub budget: u32,
    pub colony: ColonyView,
    pub tick: u32,
    pub generation: u32,
    pub max_present: usize,
    pub max_gathered: usize,
    pub oscillations: u32,
    pub prev_gathered: bool,
    pub deadline: u32,
    pub prev_present: usize,
    pub gen_start: u32,
    pub travel_start: u32,
    pub pos: Seq<WPos>,
    pub anchor: WPos,
    pub departed: bool,
    pub gathered: bool,
    pub prev_dist: Option<u32>,
    pub present: usize,
    pub in_flight: bool,
    pub traveling: bool,
    pub progress: bool,
    pub in_room: bool,
    pub combat: Seq<QueuedSpawn>,
    pub lane: usize,
}

impl SpatialView {
    pub open spec fn slots(self) -> nat {
        self.colony.filled.len()
    }

    /// One position and one home per slot, counters below the clock. `late` is
    /// set once the gathering has been judged this tick.
    pub open spec fn wf(self, late: bool) -> bool {
        let n = self.slots();
        &&& self.colony.wf()
        &&& self.plan.homes@.len() == n
        &&& self.pos.len() == n
        &&& self.tick <= self.budget
        &&& self.budget + COMMITMENT_BUDGET <= u32::MAX
        &&& self.generation <= self.tick
        &&& self.oscillations <= self.tick + if late {
            1int
        } else {
            0int
        }
        &&& (self.gathered ==> self.departed)
        &&& self.prev_gathered == self.gathered
        &&& self.lane <= self.colony.homes.len()
    }

    pub open spec fn walker(self, i: int) -> Walker {
        Walker { filled: self.colony.filled[i], pos: self.pos[i] }
    }

    pub open spec fn with_walkers(self, w: spec_fn(int) -> Walker) -> SpatialView {
        SpatialView {
            colony: ColonyView {
                filled: Seq::new(self.slots(), |i: int| w(i).filled),
                ..self.colony
            },
            pos: Seq::new(self.slots(), |i: int| w(i).pos),
            ..self
        }
    }

    /// How the run ends when its budget is used up.
    pub open spec fn verdict(self) -> ChurnOutcome {
        if self.departed {
            if self.oscillations > 0 {
                ChurnOutcome::OscillatedNeverGathered {
                    generations: self.generation,
                    max_gathered: self.max_gathered,
                }
            } else {
                ChurnOutcome::LapsedInTravel { generations: self.generation }
            }
        } else {
            ChurnOutcome::ChurnedNeverDeployed {
                generations: self.generation,
                max_present: self.max_present,
            }
        }
    }

    /// The pipeline moves on; members that arrive stand at home.
    pub open spec fn arrived(self) -> SpatialView {
        let flags = arrivals(self.colony.arriving(self.tick), self.slots());
        SpatialView {
            colony: self.colony.advanced(self.tick),
            pos: Seq::new(
                self.slots(),
                |i: int|
                    if flags[i] {
                        self.plan.homes@[i]
                    } else {
                        self.pos[i]
                    },
            ),
            ..self
        }
    }

    /// A tick opens, or the budget is used up.
    pub open spec fn opened(self) -> (SpatialView, SpatialAsk) {
        if self.tick >= self.budget {
            (self, SpatialAsk::Finished(self.verdict()))
        } else {
            let a = self.arrived();
            let present = count_true(a.colony.filled) as usize;
            (
                SpatialView {
                    present,
                    max_present: if present >= self.max_present {
                        present
                    } else {
                        self.max_present
                    },
                    traveling: false,
                    progress: false,
                    in_room: false,
                    ..a
                },
                SpatialAsk::FieldCheck { filled: a.colony.filled },
            )
        }
    }

    pub open spec fn next_tick(self) -> (SpatialView, SpatialAsk) {
        SpatialView { tick: (self.tick + 1) as u32, ..self }.opened()
    }

    pub open spec fn gather_asked(self) -> (SpatialView, SpatialAsk) {
        let here = flagged(self.colony.filled, self.pos);
        (
            SpatialView { traveling: true, ..self },
            SpatialAsk::Gather {
                positions: here,
                rally: self.plan.rally,
                slots: self.slots(),
                uncontested: self.plan.uncontested,
                has_fighter: here.len() > 0,
            },
        )
    }

    /// The fielding check is answered.
    pub open spec fn field_checked(self, any: bool) -> (SpatialView, SpatialAsk) {
        let v = SpatialView { in_flight: self.colony.pipeline_busy() || any, ..self };
        if self.departed {
            v.gather_asked()
        } else {
            (
                v,
                SpatialAsk::Gate {
                    positions: flagged(self.colony.filled, self.pos),
                    slots: self.slots(),
                    uncontested: self.plan.uncontested,
                },
            )
        }
    }

    /// The departure gate is answered.
    pub open spec fn gated(self, open: bool) -> (SpatialView, SpatialAsk) {
        if open {
            SpatialView { departed: true, travel_start: self.tick, ..self }.gather_asked()
        } else {
            (self, SpatialAsk::Reconcile(self.snapshot()))
        }
    }

    /// The quorum at the shared rally, or a member in the target room when the
    /// assault latches.
    pub open spec fn quorum_now(self, quorum: bool) -> bool {
        ||| self.plan.use_shared_rally && quorum
        ||| self.plan.latch_assault && any_in_room(
            self.colony.filled,
            self.pos,
            self.plan.target,
        )
    }

    /// The gathering is known. A latched assault stays committed; otherwise the
    /// gathering is whatever it is now, and its loss is counted.
    pub open spec fn gather_known(self, quorum: bool, count: usize) -> (SpatialView, SpatialAsk) {
        let gathered = self.quorum_now(quorum) || (self.plan.latch_assault && self.gathered);
        let v = SpatialView {
            max_gathered: if count >= self.max_gathered {
                count
            } else {
                self.max_gathered
            },
            gathered,
            prev_gathered: gathered,
            oscillations: if self.prev_gathered && !gathered {
                (self.oscillations + 1) as u32
            } else {
                self.oscillations
            },
            ..self
        };
        if gathered {
            v.assault()
        } else {
            v.solo()
        }
    }

    pub open spec fn marched(self) -> SpatialView {
        let anchor = self.anchor.stepped(self.plan.target);
        SpatialView { anchor, ..self }.with_walkers(
            |i: int|
                marched(
                    self.walker(i),
                    i == 0,
                    self.plan.homes@[i],
                    anchor,
                    self.plan.enemy_held_rooms@,
                ),
        )
    }

    /// The anchor advances on the target and the members follow it.
    pub open spec fn assault(self) -> (SpatialView, SpatialAsk) {
        let m = self.marched();
        let in_room = any_in_room(m.colony.filled, m.pos, self.plan.target);
        if in_room && self.plan.latch_assault {
            (
                SpatialView { in_room, ..m },
                SpatialAsk::Finished(
                    ChurnOutcome::DeployedAndEngaged {
                        generations: self.generation,
                        engage_tick: self.tick,
                    },
                ),
            )
        } else {
            let cur = least(room_dists(m.colony.filled, m.pos, self.plan.target));
            let v = SpatialView {
                in_room,
                progress: closing(cur, self.prev_dist),
                prev_dist: cur,
                ..m
            };
            (v, SpatialAsk::Reconcile(v.snapshot()))
        }
    }

    pub open spec fn walked(self) -> SpatialView {
        self.with_walkers(
            |i: int|
                walked(
                    self.walker(i),
                    self.plan.homes@[i],
                    self.plan.rally,
                    self.anchor,
                    self.plan.use_shared_rally,
                    self.plan.enemy_held_rooms@,
                ),
        )
    }

    /// The members walk to the rally.
    pub open spec fn solo(self) -> (SpatialView, SpatialAsk) {
        let m = self.walked();
        let cur = least(room_dists(m.colony.filled, m.pos, self.plan.rally));
        let v = SpatialView { progress: closing(cur, self.prev_dist), prev_dist: cur, ..m };
        (v, SpatialAsk::Reconcile(v.snapshot()))
    }

    /// What the squad reports this tick.
    pub open spec fn snapshot(self) -> ReconcileSnapshot {
        let has_members = self.present > 0 || self.colony.pipeline_busy();
        let forming = has_members && !self.departed && self.present < self.slots();
        ReconcileSnapshot {
            objective_gone: false,
            duplicate: false,
            is_defend: false,
            deadline_lapsed: self.tick >= self.deadline,
            wiped: false,
            has_focus: false,
            engaged_once: false,
            in_target_room: self.in_room,
            has_members,
            forming,
            forming_progress: forming && self.present > self.prev_present,
            forming_in_flight: forming && self.in_flight,
            forming_budget_remaining: elapsed(self.tick, self.gen_start) < MAX_FORMING_BUDGET,
            traveling: self.traveling,
            travel_progress: self.progress,
            travel_budget_remaining: elapsed(self.tick, self.travel_start) < MAX_TRAVEL_BUDGET,
            holding_station: false,
            declaiming: false,
            reassign_available: false,
            retreated_from_contact: false,
        }
    }

    /// The squad is dropped and fielded anew.
    pub open spec fn refielded(self) -> SpatialView {
        SpatialView {
            colony: self.colony.refielded(),
            generation: (self.generation + 1) as u32,
            deadline: (self.tick + COMMITMENT_BUDGET) as u32,
            prev_present: 0,
            gen_start: self.tick,
            pos: self.plan.homes@,
            anchor: self.plan.rally,
            departed: false,
            gathered: false,
            prev_dist: None,
            ..self
        }
    }

    pub open spec fn kept(self) -> (SpatialView, SpatialAsk) {
        let v = SpatialView { prev_present: self.present, ..self };
        if self.departed {
            v.next_tick()
        } else {
            (v, SpatialAsk::FieldSpawn { filled: self.colony.filled })
        }
    }

    /// The report is judged.
    pub open spec fn reconciled(self, action: ReconcileAction) -> (SpatialView, SpatialAsk) {
        match action {
            ReconcileAction::Retire { reason: RetireReason::GaveUp, .. } => if self.departed {
                (self, SpatialAsk::Finished(self.verdict()))
            } else {
                self.refielded().next_tick()
            },
            ReconcileAction::Retire { .. } | ReconcileAction::Reassign { .. } => (
                self,
                SpatialAsk::Finished(
                    ChurnOutcome::ChurnedNeverDeployed {
                        generations: self.generation,
                        max_present: self.max_present,
                    },
                ),
            ),
            ReconcileAction::KeepRefreshLease => SpatialView {
                deadline: (self.tick + COMMITMENT_BUDGET) as u32,
                ..self
            }.kept(),
            ReconcileAction::Keep => self.kept(),
        }
    }

    /// The next idle lane from `lane` on gets its offer; after the last the tick
    /// is over.
    pub open spec fn next_lane(self) -> (SpatialView, SpatialAsk) {
        let (c, h) = self.colony.scanned(self.tick, self.lane as int);
        if h >= self.colony.homes.len() {
            SpatialView { colony: c, ..self }.next_tick()
        } else {
            (
                SpatialView { colony: c, lane: h as usize, ..self },
                SpatialAsk::RunLane {
                    home: h,
                    energy: c.avail[h],
                    capacity: c.homes[h].energy_capacity,
                    queue: c.lane_queue(h, self.tick, self.combat, false),
                },
            )
        }
    }

    /// The slots to spawn are known.
    pub open spec fn field_given(self, combat: Seq<QueuedSpawn>) -> (SpatialView, SpatialAsk) {
        SpatialView { combat, lane: 0, ..self }.next_lane()
    }

    /// The lane has run.
    pub open spec fn lane_done(self, reply: LaneReply) -> (SpatialView, SpatialAsk) {
        SpatialView {
            colony: self.colony.booked(
                self.lane as int,
                self.tick,
                reply.available_energy,
                reply.spawned@,
            ),
            lane: (self.lane + 1) as usize,
            ..self
        }.next_lane()
    }
}

/// An answer to a run's question.
#[verifier::ext_equal]
pub enum SpatialAnswer {
    FieldChecked(bool),
    Gated(bool),
    Gathered { quorum: bool, count: usize },
    Reconciled(ReconcileAction),
    FieldGiven(Seq<QueuedSpawn>),
    LaneDone(LaneReply),
}

impl SpatialView {
    /// The run after an answer, and its next question.
    pub open spec fn answered(self, a: SpatialAnswer) -> (SpatialView, SpatialAsk) {
        match a {
            SpatialAnswer::FieldChecked(any) => self.field_checked(any),
            SpatialAnswer::Gated(open) => self.gated(open),
            SpatialAnswer::Gathered { quorum, count } => self.gather_known(quorum, count),
            SpatialAnswer::Reconciled(action) => self.reconciled(action),
            SpatialAnswer::FieldGiven(combat) => self.field_given(combat),
            SpatialAnswer::LaneDone(reply) => self.lane_done(reply),
        }
    }

    /// No gathering was ever lost.
    pub open spec fn steady(self) -> bool {
        self.oscillations == 0 && self.prev_gathered == self.gathered && (self.gathered
            ==> self.departed)
    }
}

/// A latched assault does not oscillate: once gathered a squad stays gathered, whatever
/// is answered, and no run ends for want of a steady gathering.
pub proof fn latched_assault_never_oscillates(v: SpatialView, a: SpatialAnswer)
    requires
        v.plan.latch_assault,
        v.steady(),
        a is Gathered ==> v.departed,
    ensures
        v.answered(a).0.plan == v.plan,
        v.answered(a).0.steady(),
        v.gathered && v.answered(a).0.departed ==> v.answered(a).0.gathered,
        v.answered(a).1 matches SpatialAsk::Finished(o) ==> !(o is OscillatedNeverGathered),
{
}

/// A squad engages once a member is in the target room under a latched assault, and
/// then only.
pub proof fn assault_engages_in_the_target_room(v: SpatialView, a: SpatialAnswer)
    requires
        v.answered(a).1 matches SpatialAsk::Finished(o) && o is DeployedAndEngaged,
    ensures
        v.plan.latch_assault,
        any_in_room(v.answered(a).0.colony.filled, v.answered(a).0.pos, v.plan.target),
{
}

/// Without a shared rally a member outside of the anchor's room stays where it is.
pub proof fn frozen_members_do_not_converge(
    w: Walker,
    home: WPos,
    rally: WPos,
    anchor: WPos,
    enemy: Seq<(i32, i32)>,
)
    requires
        w.filled,
        w.pos.room_of() != anchor.room_of(),
        !lists_room(enemy, w.pos.room_of()),
    ensures
        walked(w, home, rally, anchor, false, enemy) == w,
{
}

// ── Whole rosters ──────────────────────────────────────────────────────────

fn march_members(
    filled: &mut Vec<bool>,
    pos: &mut Vec<WPos>,
    plan: &SpatialTravel,
    anchor: WPos,
)
    requires
        old(pos)@.len() == old(filled)@.len(),
        plan.homes@.len() == old(filled)@.len(),
    ensures
        final(filled)@.len() == old(filled)@.len(),
        final(pos)@.len() == old(filled)@.len(),
        forall|i: int|
            #![trigger final(filled)@[i]]
            #![trigger final(pos)@[i]]
            0 <= i < old(filled)@.len() ==> (Walker { filled: final(filled)@[i], pos: final(pos)@[i] })
                == marched(
                Walker { filled: old(filled)@[i], pos: old(pos)@[i] },
                i == 0,
                plan.homes@[i],
                anchor,
                plan.enemy_held_rooms@,
            ),
{
    let ghost (f0, p0) = (filled@, pos@);
    let mut i: usize = 0;
    while i < filled.len()
        invariant
            i <= filled@.len(),
            filled@.len() == f0.len(),
            pos@.len() == f0.len(),
            plan.homes@.len() == f0.len(),
            forall|k: int|
                #![trigger filled@[k]]
                #![trigger pos@[k]]
                0 <= k < f0.len() ==> (Walker { filled: filled@[k], pos: pos@[k] }) == if k < i {
                    marched(
                        Walker { filled: f0[k], pos: p0[k] },
                        k == 0,
                        plan.homes@[k],
                        anchor,
                        plan.enemy_held_rooms@,
                    )
                } else {
                    Walker { filled: f0[k], pos: p0[k] }
                },
        decreases filled.len() - i,
    {
        let w: Walker = Walker { filled: filled[i], pos: pos[i] };
        assert(w == (Walker { filled: f0[i as int], pos: p0[i as int] }));
        let x: Walker = march_one(w, i == 0, plan.homes[i], anchor, &plan.enemy_held_rooms);
        filled.set(i, x.filled);
        pos.set(i, x.pos);
        i = i + 1;
    }
}

fn walk_members(filled: &mut Vec<bool>, pos: &mut Vec<WPos>, plan: &SpatialTravel, anchor: WPos)
    requires
        old(pos)@.len() == old(filled)@.len(),
        plan.homes@.len() == old(filled)@.len(),
    ensures
        final(filled)@.len() == old(filled)@.len(),
        final(pos)@.len() == old(filled)@.len(),
        forall|i: int|
            #![trigger final(filled)@[i]]
            #![trigger final(pos)@[i]]
            0 <= i < old(filled)@.len() ==> (Walker { filled: final(filled)@[i], pos: final(pos)@[i] })
                == walked(
                Walker { filled: old(filled)@[i], pos: old(pos)@[i] },
                plan.homes@[i],
                plan.rally,
                anchor,
                plan.use_shared_rally,
                plan.enemy_held_rooms@,
            ),
{
    let ghost (f0, p0) = (filled@, pos@);
    let mut i: usize = 0;
    while i < filled.len()
        invariant
            i <= filled@.len(),
            filled@.len() == f0.len(),
            pos@.len() == f0.len(),
            plan.homes@.len() == f0.len(),
            forall|k: int|
                #![trigger filled@[k]]
                #![trigger pos@[k]]
                0 <= k < f0.len() ==> (Walker { filled: filled@[k], pos: pos@[k] }) == if k < i {
                    walked(
                        Walker { filled: f0[k], pos: p0[k] },
                        plan.homes@[k],
                        plan.rally,
                        anchor,
                        plan.use_shared_rally,
                        plan.enemy_held_rooms@,
                    )
                } else {
                    Walker { filled: f0[k], pos: p0[k] }
                },
        decreases filled.len() - i,
    {
        let w: Walker = Walker { filled: filled[i], pos: pos[i] };
        assert(w == (Walker { filled: f0[i as int], pos: p0[i as int] }));
        let x: Walker = walk_one(
            w,
            plan.homes[i],
            plan.rally,
            anchor,
            plan.use_shared_rally,
            &plan.enemy_held_rooms,
        );
        filled.set(i, x.filled);
        pos.set(i, x.pos);
        i = i + 1;
    }
}

fn send_home(pos: &Vec<WPos>, flags: &Vec<bool>, homes: &Vec<WPos>) -> (r: Vec<WPos>)
    requires
        pos@.len() == flags@.len(),
        pos@.len() == homes@.len(),
    ensures
        r@ == Seq::new(
            pos@.len(),
            |i: int|
                if flags@[i] {
                    homes@[i]
                } else {
                    pos@[i]
                },
        ),
{
    let mut out: Vec<WPos> = Vec::new();
    let mut i: usize = 0;
    while i < pos.len()
        invariant
            pos@.len() == flags@.len(),
            pos@.len() == homes@.len(),
            i <= pos@.len(),
            out@ == Seq::new(
                i as nat,
                |k: int|
                    if flags@[k] {
                        homes@[k]
                    } else {
                        pos@[k]
                    },
            ),
        decreases pos.len() - i,
    {
        if flags[i] {
            out.push(homes[i]);
        } else {
            out.push(pos[i]);
        }
        i = i + 1;
    }
    out
}

/// A scattered-homes run in progress.
#[derive(Clone, Debug)]
pub struct SpatialRun {
    plan: SpatialTravel,
    budget: u32,
    colony: Colony,
    tick: u32,
    generation: u32,
    max_present: usize,
    max_gathered: usize,
    oscillations: u32,
    prev_gathered: bool,
    deadline: u32,
    prev_present: usize,
    gen_start: u32,
    travel_start: u32,
    pos: Vec<WPos>,
    anchor: WPos,
    departed: bool,
    gathered: bool,
    prev_dist: Option<u32>,
    present: usize,
    in_flight: bool,
    traveling: bool,
    progress: bool,
    in_room: bool,
    combat: Vec<QueuedSpawn>,
    lane: usize,
}

impl View for SpatialRun {
    type V = SpatialView;

    closed spec fn view(&self) -> SpatialView {
        SpatialView {
            plan: self.plan,
            budget: self.budget,
            colony: self.colony@,
            tick: self.tick,
            generation: self.generation,
            max_present: self.max_present,
            max_gathered: self.max_gathered,
            oscillations: self.oscillations,
            prev_gathered: self.prev_gathered,
            deadline: self.deadline,
            prev_present: self.prev_present,
            gen_start: self.gen_start,
            travel_start: self.travel_start,
            pos: self.pos@,
            anchor: self.anchor,
            departed: self.departed,
            gathered: self.gathered,
            prev_dist: self.prev_dist,
            present: self.present,
            in_flight: self.in_flight,
            traveling: self.traveling,
            progress: self.progress,
            in_room: self.in_room,
            combat: self.combat@,
            lane: self.lane,
        }
    }
}

/// The state before the first tick.
pub open spec fn started(s: ColonyFormingScenario, plan: SpatialTravel) -> SpatialView {
    SpatialView {
        plan,
        budget: s.budget_ticks,
        colony: fresh_colony(s.homes@, s.economy, s.slots as nat),
        tick: 0,
        generation: 0,
        max_present: 0,
        max_gathered: 0,
        oscillations: 0,
        prev_gathered: false,
        deadline: COMMITMENT_BUDGET,
        prev_present: 0,
        gen_start: 0,
        travel_start: 0,
        pos: plan.homes@,
        anchor: plan.rally,
        departed: false,
        gathered: false,
        prev_dist: None,
        present: 0,
        in_flight: false,
        traveling: false,
        progress: false,
        in_room: false,
        combat: seq![],
        lane: 0,
    }
}

impl SpatialRun {
    /// The run at its first tick, and its first question.
    pub fn start(s: &ColonyFormingScenario, plan: SpatialTravel) -> (r: (
        SpatialRun,
        SpatialRequest,
    ))
        requires
            homes_fit(s.homes@),
            plan.homes@.len() == s.slots,
            s.budget_ticks + COMMITMENT_BUDGET <= u32::MAX,
        ensures
            (r.0@, r.1@) == started(*s, plan).opened(),
            r.0@.wf(false),
            !(r.1 is Finished) ==> r.0@.tick < r.0@.budget,
    {
        let colony: Colony = Colony::new(s);
        let pos: Vec<WPos> = copied(&plan.homes);
        let anchor: WPos = plan.rally;
        let mut run = SpatialRun {
            plan,
            budget: s.budget_ticks,
            colony,
            tick: 0,
            generation: 0,
            max_present: 0,
            max_gathered: 0,
            oscillations: 0,
            prev_gathered: false,
            deadline: COMMITMENT_BUDGET,
            prev_present: 0,
            gen_start: 0,
            travel_start: 0,
            pos,
            anchor,
            departed: false,
            gathered: false,
            prev_dist: None,
            present: 0,
            in_flight: false,
            traveling: false,
            progress: false,
            in_room: false,
            combat: Vec::new(),
            lane: 0,
        };
        assert(run@ =~= started(*s, plan));
        let first: SpatialRequest = run.open_tick();
        (run, first)
    }

    fn open_tick(&mut self) -> (r: SpatialRequest)
        requires
            old(self)@.wf(false),
        ensures
            (final(self)@, r@) == old(self)@.opened(),
            final(self)@.wf(false),
            final(self)@.tick == old(self)@.tick,
            !(r is Finished) ==> old(self)@.tick < old(self)@.budget,
    {
        if self.tick >= self.budget {
            return SpatialRequest::Finished(self.verdict());
        }
        let ghost v0 = self@;
        let flags: Vec<bool> = self.colony.advance(self.tick);
        self.pos = send_home(&self.pos, &flags, &self.plan.homes);
        assert(self.pos@ =~= v0.arrived().pos);
        assert(self@ =~= v0.arrived());
        let present: usize = self.colony.present();
        self.present = present;
        if present >= self.max_present {
            self.max_present = present;
        }
        self.traveling = false;
        self.progress = false;
        self.in_room = false;
        assert(self@ =~= v0.opened().0);
        SpatialRequest::FieldCheck { filled: copied(&self.colony.filled) }
    }

    fn ask_gather(&mut self) -> (r: SpatialRequest)
        requires
            old(self)@.wf(false),
        ensures
            (final(self)@, r@) == old(self)@.gather_asked(),
            final(self)@.wf(false),
    {
        let ghost v0 = self@;
        self.traveling = true;
        let positions: Vec<WPos> = collect_flagged(&self.colony.filled, &self.pos);
        let has_fighter: bool = positions.len() > 0;
        assert(self@ =~= v0.gather_asked().0);
        let r = SpatialRequest::Gather {
            positions,
            rally: self.plan.rally,
            slots: self.colony.filled.len(),
            uncontested: self.plan.uncontested,
            has_fighter,
        };
        assert(r@ =~= v0.gather_asked().1);
        r
    }

    /// Answer to [`SpatialRequest::FieldCheck`]: whether any unfilled slot would be
    /// fielded.
    pub fn field_checked(&mut self, any: bool) -> (r: SpatialRequest)
        requires
            old(self)@.wf(false),
        ensures
            (final(self)@, r@) == old(self)@.field_checked(any),
            final(self)@.wf(false),
            final(self)@.tick == old(self)@.tick,
    {
        let ghost v0 = self@;
        self.in_flight = self.colony.pipeline_busy() || any;
        if self.departed {
            assert(self@ =~= SpatialView {
                in_flight: v0.colony.pipeline_busy() || any,
                ..v0
            });
            return self.ask_gather();
        }
        let positions: Vec<WPos> = collect_flagged(&self.colony.filled, &self.pos);
        assert(self@ =~= v0.field_checked(any).0);
        let r = SpatialRequest::Gate {
            positions,
            slots: self.colony.filled.len(),
            uncontested: self.plan.uncontested,
        };
        assert(r@ =~= v0.field_checked(any).1);
        r
    }

    /// Answer to [`SpatialRequest::Gate`]: whether the squad may depart.
    pub fn gated(&mut self, open: bool) -> (r: SpatialRequest)
        requires
            old(self)@.wf(false),
        ensures
            (final(self)@, r@) == old(self)@.gated(open),
            final(self)@.wf(false),
            final(self)@.tick == old(self)@.tick,
    {
        if open {
            let ghost v0 = self@;
            self.departed = true;
            self.travel_start = self.tick;
            assert(self@ =~= SpatialView { departed: true, travel_start: v0.tick, ..v0 });
            self.ask_gather()
        } else {
            SpatialRequest::Reconcile(self.snapshot())
        }
    }

    /// Answer to [`SpatialRequest::Gather`]: whether the quorum is met, and how
    /// many members stand at the rally.
    pub fn gather_known(&mut self, quorum: bool, count: usize) -> (r: SpatialRequest)
        requires
            old(self)@.wf(false),
            old(self)@.departed,
        ensures
            (final(self)@, r@) == old(self)@.gather_known(quorum, count),
            final(self)@.wf(true),
            final(self)@.tick == old(self)@.tick,
    {
        let ghost v0 = self@;
        let now: bool = (self.plan.use_shared_rally && quorum) || (self.plan.latch_assault
            && someone_in_room(&self.colony.filled, &self.pos, self.plan.target));
        if count >= self.max_gathered {
            self.max_gathered = count;
        }
        self.gathered = now || (self.plan.latch_assault && self.gathered);
        if self.prev_gathered && !self.gathered {
            self.oscillations = self.oscillations + 1;
        }
        self.prev_gathered = self.gathered;
        if self.gathered {
            self.assault()
        } else {
            self.solo()
        }
    }

    fn assault(&mut self) -> (r: SpatialRequest)
        requires
            old(self)@.wf(true),
        ensures
            (final(self)@, r@) == old(self)@.assault(),
            final(self)@.wf(true),
            final(self)@.tick == old(self)@.tick,
    {
        let ghost v0 = self@;
        let anchor: WPos = self.anchor.step_toward(self.plan.target);
        self.anchor = anchor;
        march_members(&mut self.colony.filled, &mut self.pos, &self.plan, anchor);
        let ghost m = v0.marched();
        assert forall|i: int| 0 <= i < v0.slots() implies self.colony.filled@[i]
            == m.colony.filled[i] && self.pos@[i] == m.pos[i] by {
            let _ = self.pos@[i];
            let _ = v0.walker(i);
        }
        assert(self.colony.filled@ =~= m.colony.filled);
        assert(self.pos@ =~= m.pos);
        assert(self@ =~= m);
        let here: bool = someone_in_room(&self.colony.filled, &self.pos, self.plan.target);
        self.in_room = here;
        if here && self.plan.latch_assault {
            assert(self@ =~= v0.assault().0);
            return SpatialRequest::Finished(
                ChurnOutcome::DeployedAndEngaged {
                    generations: self.generation,
                    engage_tick: self.tick,
                },
            );
        }
        let dists: Vec<Option<u32>> = measure_rooms(
            &self.colony.filled,
            &self.pos,
            self.plan.target,
        );
        let cur: Option<u32> = least_of(&dists);
        self.progress = is_closing(cur, self.prev_dist);
        self.prev_dist = cur;
        assert(self@ =~= v0.assault().0);
        SpatialRequest::Reconcile(self.snapshot())
    }

    fn solo(&mut self) -> (r: SpatialRequest)
        requires
            old(self)@.wf(true),
        ensures
            (final(self)@, r@) == old(self)@.solo(),
            final(self)@.wf(true),
            final(self)@.tick == old(self)@.tick,
    {
        let ghost v0 = self@;
        walk_members(&mut self.colony.filled, &mut self.pos, &self.plan, self.anchor);
        let ghost m = v0.walked();
        assert forall|i: int| 0 <= i < v0.slots() implies self.colony.filled@[i]
            == m.colony.filled[i] && self.pos@[i] == m.pos[i] by {
            let _ = self.pos@[i];
            let _ = v0.walker(i);
        }
        assert(self.colony.filled@ =~= m.colony.filled);
        assert(self.pos@ =~= m.pos);
        assert(self@ =~= m);
        let dists: Vec<Option<u32>> = measure_rooms(
            &self.colony.filled,
            &self.pos,
            self.plan.rally,
        );
        let cur: Option<u32> = least_of(&dists);
        self.progress = is_closing(cur, self.prev_dist);
        self.prev_dist = cur;
        assert(self@ =~= v0.solo().0);
        SpatialRequest::Reconcile(self.snapshot())
    }

    fn refield(&mut self)
        requires
            old(self)@.wf(true),
            old(self)@.tick < old(self)@.budget,
            !old(self)@.departed,
        ensures
            final(self)@ == old(self)@.refielded(),
    {
        let ghost v0 = self@;
        self.colony.refield();
        self.generation = self.generation + 1;
        self.deadline = self.tick + COMMITMENT_BUDGET;
        self.prev_present = 0;
        self.gen_start = self.tick;
        self.pos = copied(&self.plan.homes);
        self.anchor = self.plan.rally;
        self.departed = false;
        self.gathered = false;
        self.prev_dist = None;
        assert(self@ =~= v0.refielded());
    }

    fn verdict(&self) -> (r: ChurnOutcome)
        ensures
            r == self@.verdict(),
    {
        if self.departed {
            if self.oscillations > 0 {
                ChurnOutcome::OscillatedNeverGathered {
                    generations: self.generation,
                    max_gathered: self.max_gathered,
                }
            } else {
                ChurnOutcome::LapsedInTravel { generations: self.generation }
            }
        } else {
            ChurnOutcome::ChurnedNeverDeployed {
                generations: self.generation,
                max_present: self.max_present,
            }
        }
    }

    fn next_tick(&mut self) -> (r: SpatialRequest)
        requires
            old(self)@.wf(true),
            old(self)@.tick < old(self)@.budget,
        ensures
            (final(self)@, r@) == old(self)@.next_tick(),
            final(self)@.wf(false),
            !(r is Finished) ==> final(self)@.tick < final(self)@.budget,
    {
        let ghost v0 = self@;
        self.tick = self.tick + 1;
        assert(self@ =~= SpatialView { tick: (v0.tick + 1) as u32, ..v0 });
        self.open_tick()
    }

    fn snapshot(&self) -> (r: ReconcileSnapshot)
        ensures
            r == self@.snapshot(),
    {
        let has_members: bool = self.present > 0 || self.colony.pipeline_busy();
        let forming: bool = has_members && !self.departed && self.present
            < self.colony.filled.len();
        ReconcileSnapshot {
            objective_gone: false,
            duplicate: false,
            is_defend: false,
            deadline_lapsed: self.tick >= self.deadline,
            wiped: false,
            has_focus: false,
            engaged_once: false,
            in_target_room: self.in_room,
            has_members,
            forming,
            forming_progress: forming && self.present > self.prev_present,
            forming_in_flight: forming && self.in_flight,
            forming_budget_remaining: ticks_since(self.tick, self.gen_start) < MAX_FORMING_BUDGET,
            traveling: self.traveling,
            travel_progress: self.progress,
            travel_budget_remaining: ticks_since(self.tick, self.travel_start) < MAX_TRAVEL_BUDGET,
            holding_station: false,
            declaiming: false,
            reassign_available: false,
            retreated_from_contact: false,
        }
    }

    fn keep(&mut self) -> (r: SpatialRequest)
        requires
            old(self)@.wf(true),
            old(self)@.tick < old(self)@.budget,
        ensures
            (final(self)@, r@) == old(self)@.kept(),
            final(self)@.wf(r is FieldSpawn),
            !(r is Finished) ==> final(self)@.tick < final(self)@.budget,
    {
        let ghost v0 = self@;
        self.prev_present = self.present;
        assert(self@ =~= SpatialView { prev_present: v0.present, ..v0 });
        if self.departed {
            self.next_tick()
        } else {
            SpatialRequest::FieldSpawn { filled: copied(&self.colony.filled) }
        }
    }

    /// Answer to [`SpatialRequest::Reconcile`]: the judgement on the squad.
    pub fn reconciled(&mut self, action: ReconcileAction) -> (r: SpatialRequest)
        requires
            old(self)@.wf(true),
            old(self)@.tick < old(self)@.budget,
            !(action is Reassign),
        ensures
            (final(self)@, r@) == old(self)@.reconciled(action),
            final(self)@.wf(r is FieldSpawn || r is Finished),
            !(r is Finished) ==> final(self)@.tick < final(self)@.budget,
    {
        let ghost v0 = self@;
        match action {
            ReconcileAction::Retire { reason: RetireReason::GaveUp, .. } => {
                if self.departed {
                    SpatialRequest::Finished(self.verdict())
                } else {
                    self.refield();
                    self.tick = self.tick + 1;
                    assert(self@ =~= SpatialView {
                        tick: (v0.tick + 1) as u32,
                        ..v0.refielded()
                    });
                    self.open_tick()
                }
            },
            ReconcileAction::KeepRefreshLease => {
                self.deadline = self.tick + COMMITMENT_BUDGET;
                assert(self@ =~= SpatialView {
                    deadline: (v0.tick + COMMITMENT_BUDGET) as u32,
                    ..v0
                });
                self.keep()
            },
            ReconcileAction::Keep => self.keep(),
            _ => SpatialRequest::Finished(
                ChurnOutcome::ChurnedNeverDeployed {
                    generations: self.generation,
                    max_present: self.max_present,
                },
            ),
        }
    }

    fn next_lane(&mut self) -> (r: SpatialRequest)
        requires
            old(self)@.wf(true),
            old(self)@.tick < old(self)@.budget,
        ensures
            (final(self)@, r@) == old(self)@.next_lane(),
            final(self)@.wf(r is RunLane),
            !(r is Finished) ==> final(self)@.tick < final(self)@.budget,
            r is RunLane ==> final(self)@.lane < final(self)@.colony.homes.len(),
    {
        let ghost v0 = self@;
        proof {
            lemma_scan_keeps(v0.colony, v0.tick, v0.lane as int);
        }
        let offer: Option<LaneOffer> = self.colony.next_offer(
            self.lane,
            self.tick,
            &self.combat,
            false,
        );
        match offer {
            None => {
                assert(self@ =~= SpatialView {
                    colony: v0.colony.scanned(v0.tick, v0.lane as int).0,
                    ..v0
                });
                self.next_tick()
            },
            Some(o) => {
                self.lane = o.home;
                assert(self@ =~= v0.next_lane().0);
                let r = SpatialRequest::RunLane(o);
                assert(r@ =~= v0.next_lane().1);
                r
            },
        }
    }

    /// Answer to [`SpatialRequest::FieldSpawn`]: the slots to spawn.
    pub fn field_given(&mut self, combat: Vec<QueuedSpawn>) -> (r: SpatialRequest)
        requires
            old(self)@.wf(true),
            old(self)@.tick < old(self)@.budget,
        ensures
            (final(self)@, r@) == old(self)@.field_given(combat@),
            final(self)@.wf(r is RunLane),
            !(r is Finished) ==> final(self)@.tick < final(self)@.budget,
            r is RunLane ==> final(self)@.lane < final(self)@.colony.homes.len(),
    {
        let ghost v0 = self@;
        self.combat = combat;
        self.lane = 0;
        assert(self@ =~= SpatialView { combat: combat@, lane: 0, ..v0 });
        self.next_lane()
    }

    /// Answer to [`SpatialRequest::RunLane`]: what the lane did.
    pub fn lane_done(&mut self, reply: &LaneReply) -> (r: SpatialRequest)
        requires
            old(self)@.wf(true),
            old(self)@.tick < old(self)@.budget,
            old(self)@.lane < old(self)@.colony.homes.len(),
            reply_fits(
                *reply,
                old(self)@.tick,
                old(self)@.colony.homes[old(self)@.lane as int].income,
            ),
        ensures
            (final(self)@, r@) == old(self)@.lane_done(*reply),
            final(self)@.wf(r is RunLane),
            !(r is Finished) ==> final(self)@.tick < final(self)@.budget,
            r is RunLane ==> final(self)@.lane < final(self)@.colony.homes.len(),
    {
        let ghost v0 = self@;
        proof {
            lemma_booked_keeps(
                v0.colony,
                v0.lane as int,
                v0.tick,
                reply.available_energy,
                reply.spawned@,
            );
        }
        self.colony.settle(self.lane, self.tick, reply);
        self.lane = self.lane + 1;
        assert(self@ =~= SpatialView {
            colony: v0.colony.booked(
                v0.lane as int,
                v0.tick,
                reply.available_energy,
                reply.spawned@,
            ),
            lane: (v0.lane + 1) as usize,
            ..v0
        });
        self.next_lane()
    }
}

// ── What each question and each answer is for ──────────────────────────────

/// The departure gate is asked about the members present, where they stand, the whole
/// roster, and exactly the plan's own word on the target.
pub proof fn gate_is_asked_as_planned(v: SpatialView, a: SpatialAnswer, p: WPos)
    requires
        v.pos.len() == v.colony.filled.len(),
        v.answered(a).1 is Gate,
    ensures
        !v.departed,
        v.answered(a).1 matches SpatialAsk::Gate { positions, slots, uncontested } && {
            &&& uncontested == v.plan.uncontested
            &&& slots == v.colony.filled.len()
            &&& positions.len() == count_true(v.colony.filled)
            &&& positions.contains(p) <==> exists|i: int|
                0 <= i < v.colony.filled.len() && v.colony.filled[i] && #[trigger] v.pos[i] == p
        },
{
    crate::travel::flagged_are_the_flagged_members(v.colony.filled, v.pos, p);
}

/// The gathering is asked about the members present at the plan's own rally, against the
/// whole roster and with the plan's word on the target.
pub proof fn gathering_is_asked_as_planned(v: SpatialView, a: SpatialAnswer, p: WPos)
    requires
        v.pos.len() == v.colony.filled.len(),
        v.answered(a).1 is Gather,
    ensures
        v.answered(a).0.departed,
        v.answered(a).0.traveling,
        v.answered(a).1 matches SpatialAsk::Gather {
            positions,
            rally,
            slots,
            uncontested,
            has_fighter,
        } && {
            &&& rally == v.plan.rally
            &&& slots == v.colony.filled.len()
            &&& uncontested == v.plan.uncontested
            &&& has_fighter <==> count_true(v.colony.filled) > 0
            &&& positions.contains(p) <==> exists|i: int|
                0 <= i < v.colony.filled.len() && v.colony.filled[i] && #[trigger] v.pos[i] == p
        },
{
    crate::travel::flagged_are_the_flagged_members(v.colony.filled, v.pos, p);
}

/// A squad at home is asked for its departure, one under way for its gathering. An open gate
/// sends it off this tick; a closed one keeps it at home.
pub proof fn spatial_squads_are_asked_by_stage(v: SpatialView, any: bool, open: bool)
    ensures
        !v.departed ==> v.field_checked(any).1 is Gate,
        v.departed ==> v.field_checked(any).1 is Gather,
        v.field_checked(any).0.in_flight <==> any || v.colony.completing.len() > 0
            || v.colony.syncing.len() > 0,
        v.field_checked(any).0.departed == v.departed,
        open ==> v.gated(open).0.departed && v.gated(open).0.travel_start == v.tick && v.gated(
            open,
        ).1 is Gather,
        !open ==> v.gated(open).0 == v && v.gated(open).1 is Reconcile,
{
}

/// A squad gathers by its quorum where it shares a rally, and with a latch also by a member
/// in the target room or because it had gathered before. A gathering that is lost is counted.
pub proof fn squads_gather_as_planned(v: SpatialView, quorum: bool, count: usize)
    requires
        v.oscillations < u32::MAX,
    ensures
        ({
            let w = v.gather_known(quorum, count).0;
            let there = exists|i: int|
                0 <= i < v.colony.filled.len() && v.colony.filled[i] && (
                #[trigger] v.pos[i]).room_of() == v.plan.target.room_of();
            &&& v.plan.use_shared_rally && quorum ==> w.gathered
            &&& v.plan.latch_assault && (there || v.gathered) ==> w.gathered
            &&& !v.plan.latch_assault ==> (w.gathered <==> v.plan.use_shared_rally && quorum)
            &&& !v.plan.use_shared_rally && !v.plan.latch_assault ==> !w.gathered
            &&& !quorum && !there && !v.gathered ==> !w.gathered
            &&& !v.plan.use_shared_rally && !there && !v.gathered ==> !w.gathered
            &&& w.oscillations == v.oscillations + if v.prev_gathered && !w.gathered {
                1int
            } else {
                0
            }
            &&& w.prev_gathered == w.gathered
            &&& w.max_gathered >= count && w.max_gathered >= v.max_gathered
            &&& w.max_gathered == count || w.max_gathered == v.max_gathered
        }),
{
}

/// Before the assault a member that shares the rally, or stands with the anchor, gets one
/// tile closer to it; a step into an enemy's room loses it, and its slot opens at home.
pub proof fn walkers_close_on_the_rally(
    w: Walker,
    home: WPos,
    rally: WPos,
    anchor: WPos,
    shared: bool,
    enemy: Seq<(i32, i32)>,
)
    requires
        w.filled,
        shared || w.pos.room_of() == anchor.room_of(),
        w.pos != rally,
    ensures
        ({
            let n = walked(w, home, rally, anchor, shared, enemy);
            let held = lists_room(enemy, w.pos.stepped(rally).room_of());
            &&& !held ==> n.filled && n.pos.tiles_to(rally) == w.pos.tiles_to(rally) - 1
            &&& held ==> !n.filled && n.pos == home
        }),
        !walked(Walker { filled: false, ..w }, home, rally, anchor, shared, enemy).filled,
{
    crate::position::step_closes_distance(w.pos, rally);
}

/// In the assault members follow the anchor. The lead walks through enemy rooms; the others
/// are lost in them.
pub proof fn marchers_follow_the_anchor(
    w: Walker,
    lead: bool,
    home: WPos,
    anchor: WPos,
    enemy: Seq<(i32, i32)>,
)
    requires
        w.filled,
        w.pos != anchor,
    ensures
        ({
            let n = marched(w, lead, home, anchor, enemy);
            let held = lists_room(enemy, w.pos.stepped(anchor).room_of());
            &&& lead || !held ==> n.filled && n.pos.tiles_to(anchor) == w.pos.tiles_to(anchor) - 1
            &&& !lead && held ==> !n.filled && n.pos == home
        }),
        !marched(Walker { filled: false, ..w }, lead, home, anchor, enemy).filled,
{
    crate::position::step_closes_distance(w.pos, anchor);
}

/// The anchor of an assault gets one tile closer to the target each tick, the members follow
/// where it has got to, and the first slot leads.
pub proof fn the_anchor_leads_the_assault(v: SpatialView, quorum: bool, count: usize, i: int)
    requires
        0 <= i < v.colony.filled.len(),
        v.gather_known(quorum, count).0.gathered,
        v.anchor != v.plan.target,
    ensures
        ({
            let w = v.gather_known(quorum, count).0;
            &&& w.anchor.tiles_to(v.plan.target) == v.anchor.tiles_to(v.plan.target) - 1
            &&& !v.colony.filled[i] ==> !w.colony.filled[i]
            &&& v.colony.filled[i] && (i == 0 || v.plan.enemy_held_rooms@.len() == 0)
                ==> w.colony.filled[i] && w.pos[i] == v.pos[i].stepped(w.anchor)
        }),
{
    crate::position::step_closes_distance(v.anchor, v.plan.target);
}

/// A latched assault engages as soon as a member is in the target room; without the latch it
/// only reports that it is there.
pub proof fn spatial_engages_in_the_room(v: SpatialView, quorum: bool, count: usize)
    ensures
        ({
            let (w, ask) = v.gather_known(quorum, count);
            let there = exists|i: int|
                0 <= i < w.colony.filled.len() && w.colony.filled[i] && (
                #[trigger] w.pos[i]).room_of() == v.plan.target.room_of();
            &&& w.gathered && v.plan.latch_assault && there ==> ask == SpatialAsk::Finished(
                ChurnOutcome::DeployedAndEngaged {
                    generations: v.generation,
                    engage_tick: v.tick,
                },
            )
            &&& w.gathered && !(v.plan.latch_assault && there) ==> (ask
                matches SpatialAsk::Reconcile(s) && (s.in_target_room <==> there))
            &&& !w.gathered ==> ask is Reconcile
        }),
{
    let w = v.gather_known(quorum, count).0;
    assert(any_in_room(w.colony.filled, w.pos, v.plan.target) <==> exists|i: int|
        0 <= i < w.colony.filled.len() && w.colony.filled[i] && (#[trigger] w.pos[i]).room_of()
            == v.plan.target.room_of());
}

/// A member that arrives stands at its own home; the others stay where they are.
pub proof fn arrivals_stand_at_home(v: SpatialView, i: int)
    requires
        v.tick < v.budget,
        0 <= i < v.colony.filled.len(),
        v.plan.homes@.len() == v.colony.filled.len(),
        v.pos.len() == v.colony.filled.len(),
    ensures
        v.opened().0.colony.filled[i] && !v.colony.filled[i] ==> v.opened().0.pos[i]
            == v.plan.homes@[i],
        v.opened().0.pos[i] == v.pos[i] || v.opened().0.pos[i] == v.plan.homes@[i],
        v.colony.completing.len() == 0 && v.colony.syncing.len() == 0 ==> v.opened().0.pos
            == v.pos,
{
    if v.colony.completing.len() == 0 && v.colony.syncing.len() == 0 {
        reveal(Seq::filter);
        assert(v.colony.sync_queue(v.tick) =~= seq![]);
        assert(v.opened().0.pos =~= v.pos);
    }
}

/// A squad that is fielded anew stands at its homes, its anchor at the rally.
pub proof fn a_new_squad_stands_at_its_homes(v: SpatialView)
    ensures
        v.refielded().pos == v.plan.homes@,
        v.refielded().anchor == v.plan.rally,
        v.refielded().prev_dist is None,
        v.refielded().oscillations == v.oscillations,
        v.refielded().max_present == v.max_present,
{
}

/// What a report says of the squad, fact by fact.
pub proof fn spatial_report_tells_the_facts(v: SpatialView, a: SpatialAnswer)
    requires
        a == SpatialAnswer::Gated(false),
        v.answered(a).1 is Reconcile,
    ensures
        ({
            let w = v.answered(a).0;
            let s = v.answered(a).1->Reconcile_0;
            let away = v.colony.completing.len() > 0 || v.colony.syncing.len() > 0;
            &&& !s.objective_gone && !s.duplicate && !s.wiped && !s.has_focus && !s.declaiming
            &&& !s.reassign_available && !s.holding_station && !s.retreated_from_contact
            &&& !s.is_defend && !s.engaged_once
            &&& s.deadline_lapsed <==> v.tick >= v.deadline
            &&& s.in_target_room == w.in_room
            &&& s.has_members <==> v.present > 0 || away
            &&& s.forming <==> (v.present > 0 || away) && !w.departed && v.present
                < v.colony.filled.len()
            &&& s.forming_progress <==> s.forming && v.present > v.prev_present
            &&& s.forming_in_flight <==> s.forming && v.in_flight
            &&& v.tick >= v.gen_start ==> (s.forming_budget_remaining <==> v.tick < v.gen_start
                + 3000)
            &&& v.tick >= v.travel_start ==> (s.travel_budget_remaining <==> v.tick
                < v.travel_start + 1000)
            &&& s.traveling == w.traveling
            &&& s.travel_progress == w.progress
        }),
{
}

/// A squad that gives up at home is fielded anew with a fresh lease of four hundred ticks:
/// everyone at home, nobody gathered, the banks kept. One that gives up on its way is over.
pub proof fn spatial_giving_up(v: SpatialView, withdraw: bool, mark: bool)
    requires
        v.tick + 1 < v.budget,
        v.budget <= u32::MAX - 400,
        v.generation < u32::MAX,
    ensures
        ({
            let (w, ask) = v.reconciled(
                ReconcileAction::Retire { reason: RetireReason::GaveUp, withdraw, mark_unwinnable: mark },
            );
            &&& !v.departed ==> {
                &&& w.generation == v.generation + 1
                &&& w.tick == v.tick + 1
                &&& w.deadline == v.tick + 400
                &&& w.gen_start == v.tick
                &&& !w.departed && !w.gathered
                &&& w.prev_present == 0
                &&& w.colony.avail == v.colony.avail
                &&& w.plan == v.plan
                &&& ask is FieldCheck
            }
            &&& v.departed && v.oscillations == 0 ==> ask == SpatialAsk::Finished(
                ChurnOutcome::LapsedInTravel { generations: v.generation },
            )
            &&& v.departed && v.oscillations > 0 ==> ask == SpatialAsk::Finished(
                ChurnOutcome::OscillatedNeverGathered {
                    generations: v.generation,
                    max_gathered: v.max_gathered,
                },
            )
        }),
{
}

/// Any other retirement ends the run as one that never deployed.
pub proof fn spatial_retired(v: SpatialView, action: ReconcileAction)
    requires
        action is Retire,
        action->reason != RetireReason::GaveUp,
    ensures
        v.reconciled(action).1 == SpatialAsk::Finished(
            ChurnOutcome::ChurnedNeverDeployed {
                generations: v.generation,
                max_present: v.max_present,
            },
        ),
{
}

/// A kept squad goes on: at home its open slots are fielded, away the next tick opens. Only
/// a refreshed lease moves the deadline, to four hundred ticks from now.
pub proof fn spatial_kept_squad_goes_on(v: SpatialView, refresh: bool)
    requires
        v.tick + 1 < v.budget,
        v.budget <= u32::MAX - 400,
    ensures
        ({
            let action = if refresh {
                ReconcileAction::KeepRefreshLease
            } else {
                ReconcileAction::Keep
            };
            let (w, ask) = v.reconciled(action);
            &&& refresh ==> w.deadline == v.tick + 400
            &&& !refresh ==> w.deadline == v.deadline
            &&& w.generation == v.generation
            &&& w.departed == v.departed
            &&& w.gathered == v.gathered
            &&& w.prev_present == v.present
            &&& !v.departed ==> ask == (SpatialAsk::FieldSpawn { filled: v.colony.filled })
                && w.tick == v.tick
            &&& v.departed ==> ask is FieldCheck && w.tick == v.tick + 1
        }),
{
}

/// A run whose time is up at home churned; under way it lapsed, or came and went.
pub proof fn spatial_time_up(v: SpatialView)
    requires
        v.tick >= v.budget,
    ensures
        !v.departed ==> v.opened().1 == SpatialAsk::Finished(
            ChurnOutcome::ChurnedNeverDeployed {
                generations: v.generation,
                max_present: v.max_present,
            },
        ),
        v.departed && v.oscillations == 0 ==> v.opened().1 == SpatialAsk::Finished(
            ChurnOutcome::LapsedInTravel { generations: v.generation },
        ),
        v.departed && v.oscillations > 0 ==> v.opened().1 == SpatialAsk::Finished(
            ChurnOutcome::OscillatedNeverGathered {
                generations: v.generation,
                max_gathered: v.max_gathered,
            },
        ),
{
}

/// A new tick counts the members that are there, keeps the most that ever were, and starts
/// from a clean report.
pub proof fn spatial_tick_counts_the_members(v: SpatialView)
    requires
        v.tick < v.budget,
        v.colony.filled.len() <= usize::MAX,
    ensures
        ({
            let (w, ask) = v.opened();
            &&& ask == (SpatialAsk::FieldCheck { filled: w.colony.filled })
            &&& w.present == count_true(w.colony.filled)
            &&& w.max_present >= w.present
            &&& w.max_present >= v.max_present
            &&& w.max_present == w.present || w.max_present == v.max_present
            &&& !w.traveling && !w.progress && !w.in_room
            &&& w.tick == v.tick
            &&& w.departed == v.departed
            &&& w.deadline == v.deadline
            &&& w.generation == v.generation
        }),
{
    crate::colony::lemma_count_bound(v.opened().0.colony.filled);
}

/// A run starts at tick 0 with nobody present, everyone at home, the anchor at the rally and
/// 400 ticks to commit.
pub proof fn a_spatial_run_starts_at_home(s: ColonyFormingScenario, plan: SpatialTravel)
    ensures
        ({
            let v = started(s, plan);
            &&& v.tick == 0 && v.generation == 0 && v.present == 0 && v.prev_present == 0
            &&& v.max_present == 0 && v.max_gathered == 0 && v.oscillations == 0
            &&& v.gen_start == v.tick && v.travel_start == v.tick && v.lane == 0
            &&& v.deadline == v.tick + 400
            &&& v.budget == s.budget_ticks
            &&& v.pos == plan.homes@ && v.anchor == plan.rally
            &&& !v.departed && !v.gathered && !v.prev_gathered && !v.in_flight && !v.traveling
            &&& !v.progress && !v.in_room && v.prev_dist is None && v.combat.len() == 0
        }),
{
}

/// Once the slots to spawn are known, the first idle lane is asked to run, with what its home
/// has banked; and after a lane that spawned nothing the next one is.
pub proof fn idle_lanes_are_asked_in_turn(
    v: SpatialView,
    combat: Seq<QueuedSpawn>,
    reply: LaneReply,
    h: int,
)
    requires
        0 <= h < v.colony.homes.len() <= usize::MAX,
        v.colony.avail.len() == v.colony.homes.len(),
        v.colony.busy_until.len() == v.colony.homes.len(),
        v.tick >= v.colony.busy_until[h],
        reply.spawned@.len() == 0,
    ensures
        (forall|k: int| 0 <= k < h ==> v.tick < #[trigger] v.colony.busy_until[k]) ==> {
            &&& v.field_given(combat).1 matches SpatialAsk::RunLane { home, energy, capacity, .. } && {
                &&& home == h
                &&& energy == banked(v.colony.avail[h], v.colony.homes[h])
                &&& capacity == v.colony.homes[h].energy_capacity
            }
            &&& v.field_given(combat).0.combat == combat
            &&& v.field_given(combat).0.lane == h
        },
        h == v.lane + 1 ==> (v.lane_done(reply).1 matches SpatialAsk::RunLane { home, .. } && home == h),
{
    scan_stops_at_the_first_free_lane(v.colony, v.tick, 0, h);
    let (_, at) = v.colony.scanned(v.tick, 0);
    if forall|k: int| 0 <= k < h ==> v.tick < #[trigger] v.colony.busy_until[k] {
        assert(at == h);
    }
    if h == v.lane + 1 {
        scan_stops_at_the_first_free_lane(v.colony, v.tick, h, h);
    }
}

} // verus!
