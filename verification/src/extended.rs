//! The far-home lifecycle: members spawn at scattered homes, walk alone to a
//! rally, gather, and assault. Blocked paths, old age and renewal are modelled
//! per member.
//!
//! [`ExtendedRun`] is driven by questions. Each method takes the answer to the
//! last question and returns the next one, until the run is finished.

use crate::colony::{
    all_false, arrivals, banked, count_flags, count_true, fresh_colony, homes_fit,
    lemma_booked_keeps, lemma_count_bound, lemma_scan_keeps, no_flags, no_ticks, reply_fits,
    scan_stops_at_the_first_free_lane, zeros, Colony, ColonyFormingScenario, ColonyView, LaneOffer,
    LaneReply, QueuedSpawn,
};
use crate::forming::RENEW_PER_TICK;
use crate::lease::{
    elapsed, ticks_since, ChurnOutcome, ReconcileAction, ReconcileSnapshot, RetireReason,
    COMMITMENT_BUDGET, MAX_FORMING_BUDGET, MAX_TRAVEL_BUDGET, SOLO_TRAVEL_STALL_WINDOW,
};
use crate::lists::copied;
use crate::position::{tile_range, WPos};
use crate::travel::{
    any_in_room, closing, collect_flagged, flagged, is_closing, least, least_of,
    lists_room, measure_rooms, room_dists, room_listed, someone_in_room,
};
use vstd::prelude::*;

verus! {

/// The rally's numbers: how near counts as gathered, how much life a member must
/// bring to the fight, and up to where renewal tops it up.
#[derive(Clone, Copy, Debug, PartialEq, Eq, Structural)]
pub struct RallyRules {
    pub gather_radius: u32,
    pub fight_buffer: u32,
    pub renew_target_ttl: u32,
}

/// A far-home travel scenario.
#[derive(Clone, Debug)]
pub struct ExtendedTravel {
    /// Home of each member.
    pub homes: Vec<WPos>,
    pub target: WPos,
    /// The target is known to be clear, so a partial roster may go.
    pub uncontested: bool,
    /// Rooms no member can enter.
    pub blocked_rooms: Vec<(i32, i32)>,
    /// Leave members out that cannot get to the rally.
    pub escalate_on_block: bool,
    /// Judge travel by the majority of members instead of the closest one.
    pub majority_progress: bool,
    /// Leave blocked members out after the stall window.
    pub tight_stall_window: bool,
    /// The rally has a spawn that can renew members gathered there.
    pub rally_spawn: bool,
    /// Hold members at home whose life does not cover the journey.
    pub lifetime_gate: bool,
    /// Renew members that hold at home or at a renewable rally.
    pub renew_in_transit: bool,
}

/// Whether one member's life covers the journey is asked with these numbers.
/// `asked` is false for members the question does not concern.
#[derive(Clone, Copy, Debug, PartialEq, Eq, Structural)]
pub struct LifetimeQuery {
    pub asked: bool,
    pub ttl: u32,
    pub rooms_to_rally: u32,
    pub rally_to_target: u32,
}

/// What the run needs to know next.
#[derive(Clone, Debug)]
pub enum ExtendedRequest {
    /// Would any unfilled slot be fielded?
    FieldCheck { filled: Vec<bool> },
    /// May a squad with members at these positions depart?
    Gate { positions: Vec<WPos>, slots: usize, uncontested: bool },
    /// Where do members at these positions rally?
    Rally { positions: Vec<WPos>, target: WPos, uncontested: bool },
    /// Is the quorum of `effective_slots` met by the reachable members, and how
    /// many of all present members stand at the rally?
    Gather {
        reachable: Vec<WPos>,
        effective_slots: usize,
        positions: Vec<WPos>,
        rally: WPos,
        uncontested: bool,
        has_fighter: bool,
    },
    /// Which members live long enough to deploy?
    Lifetimes(Vec<LifetimeQuery>),
    Reconcile(ReconcileSnapshot),
    /// Which slots are fielded, with which bodies?
    FieldSpawn { filled: Vec<bool> },
    RunLane(LaneOffer),
    Finished(ChurnOutcome),
}

/// A request over sequences.
#[verifier::ext_equal]
pub enum ExtendedAsk {
    FieldCheck { filled: Seq<bool> },
    Gate { positions: Seq<WPos>, slots: nat, uncontested: bool },
    Rally { positions: Seq<WPos>, target: WPos, uncontested: bool },
    Gather {
        reachable: Seq<WPos>,
        effective_slots: int,
        positions: Seq<WPos>,
        rally: WPos,
        uncontested: bool,
        has_fighter: bool,
    },
    Lifetimes(Seq<LifetimeQuery>),
    Reconcile(ReconcileSnapshot),
    FieldSpawn { filled: Seq<bool> },
    RunLane { home: int, energy: u32, capacity: u32, queue: Seq<QueuedSpawn> },
    Finished(ChurnOutcome),
}

impl View for ExtendedRequest {
    type V = ExtendedAsk;

    open spec fn view(&self) -> ExtendedAsk {
        match *self {
            ExtendedRequest::FieldCheck { filled } => ExtendedAsk::FieldCheck { filled: filled@ },
            ExtendedRequest::Gate { positions, slots, uncontested } => ExtendedAsk::Gate {
                positions: positions@,
                slots: slots as nat,
                uncontested,
            },
            ExtendedRequest::Rally { positions, target, uncontested } => ExtendedAsk::Rally {
                positions: positions@,
                target,
                uncontested,
            },
            ExtendedRequest::Gather {
                reachable,
                effective_slots,
                positions,
                rally,
                uncontested,
                has_fighter,
            } => ExtendedAsk::Gather {
                reachable: reachable@,
                effective_slots: effective_slots as int,
                positions: positions@,
                rally,
                uncontested,
                has_fighter,
            },
            ExtendedRequest::Lifetimes(q) => ExtendedAsk::Lifetimes(q@),
            ExtendedRequest::Reconcile(s) => ExtendedAsk::Reconcile(s),
            ExtendedRequest::FieldSpawn { filled } => ExtendedAsk::FieldSpawn { filled: filled@ },
            ExtendedRequest::RunLane(o) => ExtendedAsk::RunLane {
                home: o.home as int,
                energy: o.available_energy,
                capacity: o.energy_capacity,
                queue: o.queue@,
            },
            ExtendedRequest::Finished(o) => ExtendedAsk::Finished(o),
        }
    }
}

// ── One member ─────────────────────────────────────────────────────────────

/// A slot's member: whether it is there, where, with how much life, and whether
/// it is held at home.
#[derive(Clone, Copy, Debug, PartialEq, Eq, Structural)]
pub struct Body {
    pub filled: bool,
    pub pos: WPos,
    pub ttl: u32,
    pub held: bool,
}

/// A member that arrives stands at home with a full life. Every present member
/// ages by one tick and is gone when its life is used up.
pub open spec fn aged(b: Body, arrived: bool, home: WPos, member_ttl: u32) -> Body {
    let born = if arrived {
        Body { pos: home, ttl: member_ttl, ..b }
    } else {
        b
    };
    let ttl = if born.filled && born.ttl > 0 {
        (born.ttl - 1) as u32
    } else {
        born.ttl
    };
    if born.filled && ttl == 0 {
        Body { filled: false, pos: home, ttl, held: false }
    } else {
        Body { ttl, ..born }
    }
}

/// In the assault a member steps toward the target unless the step is blocked. A
/// member that reaches the target room too spent to fight drops out.
pub open spec fn assaulted(
    b: Body,
    home: WPos,
    target: WPos,
    blocked: Seq<(i32, i32)>,
    fight_buffer: u32,
) -> Body {
    let next = b.pos.stepped(target);
    let pos = if b.filled && !lists_room(blocked, next.room_of()) {
        next
    } else {
        b.pos
    };
    if b.filled && pos.room_of() == target.room_of() && b.ttl <= fight_buffer {
        Body { filled: false, pos: home, ttl: b.ttl, held: false }
    } else {
        Body { pos, ..b }
    }
}

/// How a member walks alone: where it ends up, whether it is held, how long it
/// has been blocked, and whether it already stood at the rally.
#[derive(Clone, Copy, Debug, PartialEq, Eq, Structural)]
pub struct SoloStep {
    pub pos: WPos,
    pub held: bool,
    pub streak: u32,
    pub at_rally: bool,
}

/// A member that is missing or left out stands. One at the rally stays there. One
/// whose life does not cover the journey is held when the lifetime gate is on. The
/// others step toward the rally, or count one more blocked tick.
pub open spec fn soloed(
    b: Body,
    excluded: bool,
    streak: u32,
    rally: WPos,
    radius: u32,
    blocked: Seq<(i32, i32)>,
    lifetime_gate: bool,
    commits: bool,
) -> SoloStep {
    if !b.filled || excluded {
        SoloStep { pos: b.pos, held: b.held, streak, at_rally: false }
    } else if b.pos.tiles_to(rally) <= radius {
        SoloStep { pos: b.pos, held: false, streak: 0, at_rally: true }
    } else if lifetime_gate && !commits {
        SoloStep { pos: b.pos, held: true, streak: 0, at_rally: false }
    } else {
        let next = b.pos.stepped(rally);
        let held = if lifetime_gate {
            false
        } else {
            b.held
        };
        if lists_room(blocked, next.room_of()) {
            SoloStep { pos: b.pos, held, streak: (streak + 1) as u32, at_rally: false }
        } else {
            SoloStep { pos: next, held, streak: 0, at_rally: false }
        }
    }
}

fn age_one(b: Body, arrived: bool, home: WPos, member_ttl: u32) -> (r: Body)
    ensures
        r == aged(b, arrived, home, member_ttl),
{
    let mut x: Body = b;
    if arrived {
        x.pos = home;
        x.ttl = member_ttl;
    }
    if x.filled {
        if x.ttl > 0 {
            x.ttl = x.ttl - 1;
        }
        if x.ttl == 0 {
            x.filled = false;
            x.pos = home;
            x.held = false;
        }
    }
    x
}

fn assault_one(
    b: Body,
    home: WPos,
    target: WPos,
    blocked: &Vec<(i32, i32)>,
    fight_buffer: u32,
) -> (r: Body)
    ensures
        r == assaulted(b, home, target, blocked@, fight_buffer),
{
    let mut x: Body = b;
    if x.filled {
        let next: WPos = x.pos.step_toward(target);
        if !room_listed(blocked, next.room()) {
            x.pos = next;
        }
        if x.pos.same_room(target) && x.ttl <= fight_buffer {
            x.filled = false;
            x.pos = home;
            x.held = false;
        }
    }
    x
}

fn solo_one(
    b: Body,
    excluded: bool,
    streak: u32,
    rally: WPos,
    radius: u32,
    blocked: &Vec<(i32, i32)>,
    lifetime_gate: bool,
    commits: bool,
) -> (r: SoloStep)
    requires
        b.pos.in_world(),
        rally.in_world(),
        streak < u32::MAX,
    ensures
        r == soloed(b, excluded, streak, rally, radius, blocked@, lifetime_gate, commits),
{
    if !b.filled || excluded {
        return SoloStep { pos: b.pos, held: b.held, streak, at_rally: false };
    }
    if tile_range(b.pos, rally) <= radius {
        return SoloStep { pos: b.pos, held: false, streak: 0, at_rally: true };
    }
    if lifetime_gate && !commits {
        return SoloStep { pos: b.pos, held: true, streak: 0, at_rally: false };
    }
    let next: WPos = b.pos.step_toward(rally);
    let held: bool = if lifetime_gate { false } else { b.held };
    if room_listed(blocked, next.room()) {
        SoloStep { pos: b.pos, held, streak: streak + 1, at_rally: false }
    } else {
        SoloStep { pos: next, held, streak: 0, at_rally: false }
    }
}

// ── The run's state ────────────────────────────────────────────────────────

/// The state of a run.
#[verifier::ext_equal]
pub struct ExtendedView {
    pub plan: ExtendedTravel,
    pub rules: RallyRules,
    pub budget: u32,
    pub member_ttl: u32,
    pub colony: ColonyView,
    pub tick: u32,
    pub generation: u32,
    pub max_present: usize,
    pub max_gathered: usize,
    pub oscillations: u32,
    pub prev_gathered: bool,
    pub deadline: u32,
    pub prev_present: usize,
    pub gen_start: u32,
    pub travel_start: u32,
    pub pos: Seq<WPos>,
    pub departed: bool,
    pub gathered: bool,
    pub prev_min: Option<u32>,
    pub prev_dist: Seq<Option<u32>>,
    pub streak: Seq<u32>,
    pub excluded: Seq<bool>,
    pub ttl: Seq<u32>,
    pub held: Seq<bool>,
    pub present: usize,
    pub in_flight: bool,
    pub seen: Seq<WPos>,
    pub rally: WPos,
    pub traveling: bool,
    pub progress: bool,
    pub in_room: bool,
    pub combat: Seq<QueuedSpawn>,
    pub lane: usize,
}

pub open spec fn no_dists(n: nat) -> Seq<Option<u32>> {
    Seq::new(n, |i: int| None::<u32>)
}

pub open spec fn all_in_world(s: Seq<WPos>) -> bool {
    forall|i: int| 0 <= i < s.len() ==> (#[trigger] s[i]).in_world()
}

/// The plan fits its roster and the game world.
pub open spec fn plan_fits(plan: ExtendedTravel, slots: nat) -> bool {
    &&& plan.homes@.len() == slots
    &&& all_in_world(plan.homes@)
    &&& plan.target.in_world()
}

/// `a` is renewed before `b`: less life left, or the same and a lower slot.
pub open spec fn renews_before(ttl: Seq<u32>, a: int, b: int) -> bool {
    ttl[a] < ttl[b] || (ttl[a] == ttl[b] && a < b)
}

/// The renewable members that go before member `i`.
pub open spec fn ahead_of(renewable: Seq<bool>, ttl: Seq<u32>, i: int) -> Seq<bool> {
    Seq::new(renewable.len(), |j: int| renewable[j] && renews_before(ttl, j, i))
}

/// Each free lane renews one member, those with the least life left first.
pub open spec fn renewed(renewable: Seq<bool>, ttl: Seq<u32>, lanes: nat, goal: u32) -> Seq<u32> {
    Seq::new(
        ttl.len(),
        |i: int|
            if renewable[i] && count_true(ahead_of(renewable, ttl, i)) < lanes {
                if ttl[i] + RENEW_PER_TICK <= goal {
                    (ttl[i] + RENEW_PER_TICK) as u32
                } else {
                    goal
                }
            } else {
                ttl[i]
            },
    )
}

/// The lanes that are free at a tick.
pub open spec fn free_lanes(busy_until: Seq<u32>, tick: u32) -> Seq<bool> {
    Seq::new(busy_until.len(), |h: int| tick >= busy_until[h])
}

impl ExtendedView {
    pub open spec fn slots(self) -> nat {
        self.colony.filled.len()
    }

    /// Every per-member sequence has one entry per slot, positions lie in the
    /// world, counters stay below the clock. `late` is set once the members have
    /// moved this tick.
    pub open spec fn wf(self, late: bool) -> bool {
        let n = self.slots();
        &&& self.colony.wf()
        &&& plan_fits(self.plan, n)
        &&& self.pos.len() == n
        &&& self.prev_dist.len() == n
        &&& self.streak.len() == n
        &&& self.excluded.len() == n
        &&& self.ttl.len() == n
        &&& self.held.len() == n
        &&& all_in_world(self.pos)
        &&& self.rally.in_world()
        &&& self.tick <= self.budget
        &&& self.budget + COMMITMENT_BUDGET <= u32::MAX
        &&& self.generation <= self.tick
        &&& self.oscillations == 0
        &&& (self.prev_gathered ==> self.gathered)
        &&& (self.gathered ==> self.departed)
        &&& self.rules.renew_target_ttl + RENEW_PER_TICK <= u32::MAX
        &&& self.lane <= self.colony.homes.len()
        &&& forall|i: int|
            0 <= i < n ==> #[trigger] self.streak[i] <= self.tick + if late {
                1int
            } else {
                0int
            }
    }

    pub open spec fn body(self, i: int) -> Body {
        Body {
            filled: self.colony.filled[i],
            pos: self.pos[i],
            ttl: self.ttl[i],
            held: self.held[i],
        }
    }

    pub open spec fn with_bodies(self, b: spec_fn(int) -> Body) -> ExtendedView {
        ExtendedView {
            colony: ColonyView {
                filled: Seq::new(self.slots(), |i: int| b(i).filled),
                ..self.colony
            },
            pos: Seq::new(self.slots(), |i: int| b(i).pos),
            ttl: Seq::new(self.slots(), |i: int| b(i).ttl),
            held: Seq::new(self.slots(), |i: int| b(i).held),
            ..self
        }
    }

    /// How the run ends when its budget is used up.
    pub open spec fn verdict(self) -> ChurnOutcome {
        if self.departed {
            if self.oscillations > 0 {
                ChurnOutcome::OscillatedNeverGathered {
                    generations: self.generation,
                    max_gathered: self.max_gathered,
                }
            } else {
                ChurnOutcome::LapsedInTravel { generations: self.generation }
            }
        } else {
            ChurnOutcome::ChurnedNeverDeployed {
                generations: self.generation,
                max_present: self.max_present,
            }
        }
    }

    /// The pipeline moves on and every member ages.
    pub open spec fn aged(self) -> ExtendedView {
        let arrived = arrivals(self.colony.arriving(self.tick), self.slots());
        let moved = ExtendedView { colony: self.colony.advanced(self.tick), ..self };
        moved.with_bodies(
            |i: int| aged(moved.body(i), arrived[i], self.plan.homes@[i], self.member_ttl),
        )
    }

    /// A tick opens, or the budget is used up.
    pub open spec fn opened(self) -> (ExtendedView, ExtendedAsk) {
        if self.tick >= self.budget {
            (self, ExtendedAsk::Finished(self.verdict()))
        } else {
            let a = self.aged();
            let present = count_true(a.colony.filled) as usize;
            (
                ExtendedView {
                    present,
                    max_present: if present >= self.max_present {
                        present
                    } else {
                        self.max_present
                    },
                    traveling: false,
                    progress: false,
                    in_room: false,
                    ..a
                },
                ExtendedAsk::FieldCheck { filled: a.colony.filled },
            )
        }
    }

    pub open spec fn next_tick(self) -> (ExtendedView, ExtendedAsk) {
        ExtendedView { tick: (self.tick + 1) as u32, ..self }.opened()
    }

    pub open spec fn rally_asked(self) -> (ExtendedView, ExtendedAsk) {
        let v = ExtendedView { traveling: true, ..self };
        (
            v,
            ExtendedAsk::Rally {
                positions: self.seen,
                target: self.plan.target,
                uncontested: self.plan.uncontested,
            },
        )
    }

    /// The fielding check is answered.
    pub open spec fn field_checked(self, any: bool) -> (ExtendedView, ExtendedAsk) {
        let seen = flagged(self.colony.filled, self.pos);
        let v = ExtendedView { in_flight: self.colony.pipeline_busy() || any, seen, ..self };
        if self.departed {
            v.rally_asked()
        } else {
            (
                v,
                ExtendedAsk::Gate {
                    positions: seen,
                    slots: self.slots(),
                    uncontested: self.plan.uncontested,
                },
            )
        }
    }

    /// The departure gate is answered.
    pub open spec fn gated(self, open: bool) -> (ExtendedView, ExtendedAsk) {
        if open {
            ExtendedView { departed: true, travel_start: self.tick, ..self }.rally_asked()
        } else {
            self.rested()
        }
    }

    /// The members still counted on: present and not left out.
    pub open spec fn reachable(self) -> Seq<bool> {
        Seq::new(self.slots(), |i: int| self.colony.filled[i] && !self.excluded[i])
    }

    /// The rally point is known.
    pub open spec fn rallied(self, rally: WPos) -> (ExtendedView, ExtendedAsk) {
        let here = flagged(self.colony.filled, self.pos);
        (
            ExtendedView { rally, ..self },
            ExtendedAsk::Gather {
                reachable: flagged(self.reachable(), self.pos),
                effective_slots: self.slots() - count_true(self.excluded),
                positions: here,
                rally,
                uncontested: self.plan.uncontested,
                has_fighter: here.len() > 0,
            },
        )
    }

    /// The quorum is met, or a member has reached the target room.
    pub open spec fn quorum_now(self, quorum: bool) -> bool {
        quorum || any_in_room(self.colony.filled, self.pos, self.plan.target)
    }

    /// The gathering is known. Once met it stays met.
    pub open spec fn gather_known(self, quorum: bool, count: usize) -> (
        ExtendedView,
        ExtendedAsk,
    ) {
        let gathered = self.gathered || self.quorum_now(quorum);
        let v = ExtendedView {
            max_gathered: if count >= self.max_gathered {
                count
            } else {
                self.max_gathered
            },
            gathered,
            prev_gathered: gathered,
            ..self
        };
        if gathered {
            v.assault()
        } else if self.plan.lifetime_gate {
            (v, ExtendedAsk::Lifetimes(v.lifetime_queries()))
        } else {
            v.solo(all_false(self.slots()))
        }
    }

    pub open spec fn assault_bodies(self) -> ExtendedView {
        self.with_bodies(
            |i: int|
                assaulted(
                    self.body(i),
                    self.plan.homes@[i],
                    self.plan.target,
                    self.plan.blocked_rooms@,
                    self.rules.fight_buffer,
                ),
        )
    }

    /// The squad advances on the target as a body.
    pub open spec fn assault(self) -> (ExtendedView, ExtendedAsk) {
        let m = self.assault_bodies();
        if any_in_room(m.colony.filled, m.pos, self.plan.target) {
            (
                ExtendedView { in_room: true, ..m },
                ExtendedAsk::Finished(
                    ChurnOutcome::DeployedAndEngaged {
                        generations: self.generation,
                        engage_tick: self.tick,
                    },
                ),
            )
        } else {
            let cur = least(room_dists(m.colony.filled, m.pos, self.plan.target));
            ExtendedView { progress: closing(cur, self.prev_min), prev_min: cur, ..m }.rested()
        }
    }

    pub open spec fn lifetime_query(self, i: int) -> LifetimeQuery {
        if self.colony.filled[i] && !self.excluded[i] && self.pos[i].tiles_to(self.rally)
            > self.rules.gather_radius {
            LifetimeQuery {
                asked: true,
                ttl: self.ttl[i],
                rooms_to_rally: self.pos[i].rooms_to(self.rally) as u32,
                rally_to_target: self.rally.rooms_to(self.plan.target) as u32,
            }
        } else {
            LifetimeQuery { asked: false, ttl: 0, rooms_to_rally: 0, rally_to_target: 0 }
        }
    }

    pub open spec fn lifetime_queries(self) -> Seq<LifetimeQuery> {
        Seq::new(self.slots(), |i: int| self.lifetime_query(i))
    }

    pub open spec fn solo_step(self, commits: Seq<bool>, i: int) -> SoloStep {
        soloed(
            self.body(i),
            self.excluded[i],
            self.streak[i],
            self.rally,
            self.rules.gather_radius,
            self.plan.blocked_rooms@,
            self.plan.lifetime_gate,
            commits[i],
        )
    }

    /// Every member walks alone toward the rally.
    pub open spec fn solo_moved(self, commits: Seq<bool>) -> ExtendedView {
        ExtendedView {
            pos: Seq::new(self.slots(), |i: int| self.solo_step(commits, i).pos),
            held: Seq::new(self.slots(), |i: int| self.solo_step(commits, i).held),
            streak: Seq::new(self.slots(), |i: int| self.solo_step(commits, i).streak),
            ..self
        }
    }

    /// The members that are getting closer or are already there.
    pub open spec fn progressing(self, commits: Seq<bool>, dists: Seq<Option<u32>>) -> Seq<bool> {
        Seq::new(
            self.slots(),
            |i: int|
                dists[i] is Some && (closing(dists[i], self.prev_dist[i]) || self.solo_step(
                    commits,
                    i,
                ).at_rally),
        )
    }

    /// Members blocked for the whole stall window are left out.
    pub open spec fn left_out(self, moved: ExtendedView) -> Seq<bool> {
        if self.plan.escalate_on_block && self.plan.tight_stall_window {
            Seq::new(
                self.slots(),
                |i: int|
                    self.excluded[i] || (self.colony.filled[i] && moved.streak[i]
                        >= SOLO_TRAVEL_STALL_WINDOW),
            )
        } else {
            self.excluded
        }
    }

    /// Solo travel: the members move, progress is judged, blocked members may be
    /// left out.
    pub open spec fn solo(self, commits: Seq<bool>) -> (ExtendedView, ExtendedAsk) {
        let m = self.solo_moved(commits);
        let dists = room_dists(self.reachable(), m.pos, self.rally);
        let steady = self.progressing(commits, dists);
        let cur = least(dists);
        let progress = if self.plan.majority_progress {
            2 * count_true(steady) > count_true(self.reachable())
        } else {
            closing(cur, self.prev_min)
        };
        ExtendedView {
            progress,
            prev_min: if self.plan.majority_progress {
                self.prev_min
            } else {
                cur
            },
            prev_dist: dists,
            excluded: self.left_out(m),
            ..m
        }.rested()
    }

    /// The member has too little life and stands where it can be renewed.
    pub open spec fn renewable(self, i: int) -> bool {
        &&& self.colony.filled[i]
        &&& self.ttl[i] < self.rules.renew_target_ttl
        &&& {
            ||| self.held[i]
            ||| !self.departed && self.pos[i] == self.plan.homes@[i]
            ||| self.departed && self.plan.rally_spawn && self.pos[i].tiles_to(self.rally)
                <= self.rules.gather_radius
        }
    }

    pub open spec fn renewables(self) -> Seq<bool> {
        Seq::new(self.slots(), |i: int| self.renewable(i))
    }

    pub open spec fn renew_done(self) -> ExtendedView {
        if self.plan.renew_in_transit {
            ExtendedView {
                ttl: renewed(
                    self.renewables(),
                    self.ttl,
                    count_true(free_lanes(self.colony.busy_until, self.tick)),
                    self.rules.renew_target_ttl,
                ),
                ..self
            }
        } else {
            self
        }
    }

    /// What the squad reports this tick. `has_members` was taken before anyone
    /// moved.
    pub open spec fn snapshot(self) -> ReconcileSnapshot {
        let has_members = self.present > 0 || self.colony.pipeline_busy();
        let forming = has_members && !self.departed && self.present < self.slots();
        ReconcileSnapshot {
            objective_gone: false,
            duplicate: false,
            is_defend: false,
            deadline_lapsed: self.tick >= self.deadline,
            wiped: false,
            has_focus: false,
            engaged_once: false,
            in_target_room: self.in_room,
            has_members,
            forming,
            forming_progress: forming && self.present > self.prev_present,
            forming_in_flight: forming && self.in_flight,
            forming_budget_remaining: elapsed(self.tick, self.gen_start) < MAX_FORMING_BUDGET,
            traveling: self.traveling,
            travel_progress: self.progress,
            travel_budget_remaining: elapsed(self.tick, self.travel_start) < MAX_TRAVEL_BUDGET,
            holding_station: false,
            declaiming: false,
            reassign_available: false,
            retreated_from_contact: false,
        }
    }

    /// Movement is over: renew, then report.
    pub open spec fn rested(self) -> (ExtendedView, ExtendedAsk) {
        let r = self.renew_done();
        (r, ExtendedAsk::Reconcile(r.snapshot()))
    }

    /// The squad is dropped and fielded anew.
    pub open spec fn refielded(self) -> ExtendedView {
        let n = self.slots();
        ExtendedView {
            colony: self.colony.refielded(),
            generation: (self.generation + 1) as u32,
            deadline: (self.tick + COMMITMENT_BUDGET) as u32,
            prev_present: 0,
            gen_start: self.tick,
            pos: self.plan.homes@,
            departed: false,
            gathered: false,
            prev_min: None,
            prev_dist: no_dists(n),
            streak: zeros(n),
            excluded: all_false(n),
            ttl: zeros(n),
            held: all_false(n),
            ..self
        }
    }

    pub open spec fn kept(self) -> (ExtendedView, ExtendedAsk) {
        let v = ExtendedView { prev_present: self.present, ..self };
        if self.departed {
            v.next_tick()
        } else {
            (v, ExtendedAsk::FieldSpawn { filled: self.colony.filled })
        }
    }

    /// The report is judged.
    pub open spec fn reconciled(self, action: ReconcileAction) -> (ExtendedView, ExtendedAsk) {
        match action {
            ReconcileAction::Retire { reason: RetireReason::GaveUp, .. } => if self.departed {
                (self, ExtendedAsk::Finished(self.verdict()))
            } else {
                self.refielded().next_tick()
            },
            ReconcileAction::Retire { .. } | ReconcileAction::Reassign { .. } => (
                self,
                ExtendedAsk::Finished(
                    ChurnOutcome::ChurnedNeverDeployed {
                        generations: self.generation,
                        max_present: self.max_present,
                    },
                ),
            ),
            ReconcileAction::KeepRefreshLease => ExtendedView {
                deadline: (self.tick + COMMITMENT_BUDGET) as u32,
                ..self
            }.kept(),
            ReconcileAction::Keep => self.kept(),
        }
    }

    /// The next idle lane from `lane` on gets its offer; after the last the tick
    /// is over.
    pub open spec fn next_lane(self) -> (ExtendedView, ExtendedAsk) {
        let (c, h) = self.colony.scanned(self.tick, self.lane as int);
        if h >= self.colony.homes.len() {
            ExtendedView { colony: c, ..self }.next_tick()
        } else {
            (
                ExtendedView { colony: c, lane: h as usize, ..self },
                ExtendedAsk::RunLane {
                    home: h,
                    energy: c.avail[h],
                    capacity: c.homes[h].energy_capacity,
                    queue: c.lane_queue(h, self.tick, self.combat, false),
                },
            )
        }
    }

    /// The slots to spawn are known.
    pub open spec fn field_given(self, combat: Seq<QueuedSpawn>) -> (ExtendedView, ExtendedAsk) {
        ExtendedView { combat, lane: 0, ..self }.next_lane()
    }

    /// The lane has run.
    pub open spec fn lane_done(self, reply: LaneReply) -> (ExtendedView, ExtendedAsk) {
        ExtendedView {
            colony: self.colony.booked(
                self.lane as int,
                self.tick,
                reply.available_energy,
                reply.spawned@,
            ),
            lane: (self.lane + 1) as usize,
            ..self
        }.next_lane()
    }
}

/// An answer to a run's question.
#[verifier::ext_equal]
pub enum ExtendedAnswer {
    FieldChecked(bool),
    Gated(bool),
    Rallied(WPos),
    Gathered { quorum: bool, count: usize },
    Lifetimes(Seq<bool>),
    Reconciled(ReconcileAction),
    FieldGiven(Seq<QueuedSpawn>),
    LaneDone(LaneReply),
}

impl ExtendedView {
    /// The run after an answer, and its next question.
    pub open spec fn answered(self, a: ExtendedAnswer) -> (ExtendedView, ExtendedAsk) {
        match a {
            ExtendedAnswer::FieldChecked(any) => self.field_checked(any),
            ExtendedAnswer::Gated(open) => self.gated(open),
            ExtendedAnswer::Rallied(rally) => self.rallied(rally),
            ExtendedAnswer::Gathered { quorum, count } => self.gather_known(quorum, count),
            ExtendedAnswer::Lifetimes(commits) => self.solo(commits),
            ExtendedAnswer::Reconciled(action) => self.reconciled(action),
            ExtendedAnswer::FieldGiven(combat) => self.field_given(combat),
            ExtendedAnswer::LaneDone(reply) => self.lane_done(reply),
        }
    }
}

/// A far-home squad that has gathered stays gathered for as long as it is out, whatever
/// is answered, and no run ends for want of a steady gathering.
pub proof fn gathering_is_latched(v: ExtendedView, a: ExtendedAnswer)
    requires
        v.oscillations == 0,
        v.gathered ==> v.departed,
    ensures
        v.answered(a).0.plan == v.plan,
        v.answered(a).0.oscillations == 0,
        v.gathered && v.answered(a).0.departed ==> v.answered(a).0.gathered,
        v.answered(a).1 matches ExtendedAsk::Finished(o) ==> !(o is OscillatedNeverGathered),
{
}

/// No member steps into a blocked room, neither alone nor in the assault.
pub proof fn no_member_enters_a_blocked_room(
    b: Body,
    excluded: bool,
    streak: u32,
    rally: WPos,
    radius: u32,
    blocked: Seq<(i32, i32)>,
    lifetime_gate: bool,
    commits: bool,
    home: WPos,
    target: WPos,
    fight_buffer: u32,
)
    ensures
        ({
            let s = soloed(b, excluded, streak, rally, radius, blocked, lifetime_gate, commits);
            s.pos == b.pos || (s.pos == b.pos.stepped(rally) && !lists_room(
                blocked,
                s.pos.room_of(),
            ))
        }),
        ({
            let s = assaulted(b, home, target, blocked, fight_buffer);
            s.filled ==> s.pos == b.pos || (s.pos == b.pos.stepped(target) && !lists_room(
                blocked,
                s.pos.room_of(),
            ))
        }),
{
}

/// A member that is on its way gets one tile closer to the rally, or its blocked ticks
/// are counted; there is no third way.
pub proof fn lone_member_closes_or_counts(
    b: Body,
    streak: u32,
    rally: WPos,
    radius: u32,
    blocked: Seq<(i32, i32)>,
)
    requires
        b.filled,
        b.pos.tiles_to(rally) > radius,
        streak < u32::MAX,
    ensures
        ({
            let s = soloed(b, false, streak, rally, radius, blocked, false, false);
            ||| s.pos.tiles_to(rally) == b.pos.tiles_to(rally) - 1 && s.streak == 0
            ||| s.pos == b.pos && s.streak == streak + 1
        }),
{
    crate::position::step_closes_distance(b.pos, rally);
}

/// A member whose life does not cover the journey stays where it is, held, when the
/// lifetime gate is on.
pub proof fn unfit_members_are_held(
    b: Body,
    streak: u32,
    rally: WPos,
    radius: u32,
    blocked: Seq<(i32, i32)>,
)
    requires
        b.filled,
        b.pos.tiles_to(rally) > radius,
    ensures
        ({
            let s = soloed(b, false, streak, rally, radius, blocked, true, false);
            s.pos == b.pos && s.held
        }),
{
}

/// Whoever stands in the target room after the assault's step has more life left than
/// the fight takes.
pub proof fn spent_members_do_not_fight(
    b: Body,
    home: WPos,
    target: WPos,
    blocked: Seq<(i32, i32)>,
    fight_buffer: u32,
)
    ensures
        ({
            let s = assaulted(b, home, target, blocked, fight_buffer);
            s.filled && s.pos.room_of() == target.room_of() ==> s.ttl > fight_buffer
        }),
{
}

/// With escalation and the tight window, a member that was blocked for the whole window
/// no longer counts toward the quorum.
pub proof fn blocked_member_is_left_out(v: ExtendedView, commits: Seq<bool>, i: int)
    requires
        v.plan.escalate_on_block,
        v.plan.tight_stall_window,
        0 <= i < v.slots(),
        v.colony.filled[i],
        v.solo_moved(commits).streak[i] >= SOLO_TRAVEL_STALL_WINDOW,
    ensures
        v.solo(commits).0.excluded[i],
        !v.solo(commits).0.reachable()[i],
{
}

/// The members that are renewed.
pub open spec fn renewals(renewable: Seq<bool>, ttl: Seq<u32>, lanes: nat) -> Seq<bool> {
    Seq::new(
        renewable.len(),
        |i: int| renewable[i] && count_true(ahead_of(renewable, ttl, i)) < lanes,
    )
}

/// No more members are renewed in a tick than lanes are free.
pub proof fn renewal_takes_a_lane_each(renewable: Seq<bool>, ttl: Seq<u32>, lanes: nat)
    ensures
        count_true(renewals(renewable, ttl, lanes)) <= lanes,
{
    let r = renewals(renewable, ttl, lanes);
    if count_true(r) > 0 {
        lemma_some_flag(r);
        let m = lemma_last(r, ttl, r.len() as int);
        let others = r.update(m, false);
        crate::terrain_import::lemma_count_set(r, m, false);
        let ahead = ahead_of(renewable, ttl, m);
        assert forall|j: int| 0 <= j < others.len() && #[trigger] others[j] implies ahead[j] by {
            assert(r[j]);
        }
        lemma_count_implied(others, ahead);
    }
}

proof fn lemma_some_flag(s: Seq<bool>)
    requires
        count_true(s) > 0,
    ensures
        exists|i: int| 0 <= i < s.len() && s[i],
    decreases s.len(),
{
    if s.len() > 0 {
        if s.last() {
            assert(s[s.len() - 1]);
        } else {
            lemma_some_flag(s.drop_last());
            let i = choose|i: int| 0 <= i < s.drop_last().len() && s.drop_last()[i];
            assert(s[i]);
        }
    }
}

/// Of the first `n` flagged members, the one that all others go before.
proof fn lemma_last(flags: Seq<bool>, ttl: Seq<u32>, n: int) -> (m: int)
    requires
        0 <= n <= flags.len(),
        exists|i: int| 0 <= i < n && flags[i],
    ensures
        0 <= m < n,
        flags[m],
        forall|j: int| 0 <= j < n && #[trigger] flags[j] && j != m ==> renews_before(ttl, j, m),
    decreases n,
{
    if exists|i: int| 0 <= i < n - 1 && flags[i] {
        let m = lemma_last(flags, ttl, n - 1);
        if flags[n - 1] && !renews_before(ttl, n - 1, m) {
            n - 1
        } else {
            m
        }
    } else {
        n - 1
    }
}

proof fn lemma_count_implied(a: Seq<bool>, b: Seq<bool>)
    requires
        a.len() == b.len(),
        forall|j: int| 0 <= j < a.len() && #[trigger] a[j] ==> b[j],
    ensures
        count_true(a) <= count_true(b),
    decreases a.len(),
{
    if a.len() > 0 {
        let (x, y) = (a.drop_last(), b.drop_last());
        assert forall|j: int| 0 <= j < x.len() && #[trigger] x[j] implies y[j] by {
            assert(a[j]);
        }
        lemma_count_implied(x, y);
        if a.last() {
            assert(a[a.len() - 1]);
        }
    }
}

/// A renewal lengthens a life, and never past the goal.
pub proof fn renewal_stops_at_the_goal(
    renewable: Seq<bool>,
    ttl: Seq<u32>,
    lanes: nat,
    goal: u32,
    i: int,
)
    requires
        renewable.len() == ttl.len(),
        0 <= i < ttl.len(),
        renewable[i] ==> ttl[i] < goal,
    ensures
        renewed(renewable, ttl, lanes, goal)[i] >= ttl[i],
        renewed(renewable, ttl, lanes, goal)[i] > ttl[i] <==> renewals(renewable, ttl, lanes)[i],
        ttl[i] <= goal ==> renewed(renewable, ttl, lanes, goal)[i] <= goal,
{
}

// ── Whole rosters ──────────────────────────────────────────────────────────

pub open spec fn body_of(
    filled: Seq<bool>,
    pos: Seq<WPos>,
    ttl: Seq<u32>,
    held: Seq<bool>,
    i: int,
) -> Body {
    Body { filled: filled[i], pos: pos[i], ttl: ttl[i], held: held[i] }
}

fn age_members(
    filled: &mut Vec<bool>,
    pos: &mut Vec<WPos>,
    ttl: &mut Vec<u32>,
    held: &mut Vec<bool>,
    arrived: &Vec<bool>,
    homes: &Vec<WPos>,
    member_ttl: u32,
)
    requires
        old(pos)@.len() == old(filled)@.len(),
        old(ttl)@.len() == old(filled)@.len(),
        old(held)@.len() == old(filled)@.len(),
        arrived@.len() == old(filled)@.len(),
        homes@.len() == old(filled)@.len(),
    ensures
        final(filled)@.len() == old(filled)@.len(),
        final(pos)@.len() == old(filled)@.len(),
        final(ttl)@.len() == old(filled)@.len(),
        final(held)@.len() == old(filled)@.len(),
        forall|i: int|
            #![trigger final(filled)@[i]]
            #![trigger final(pos)@[i]]
            #![trigger final(ttl)@[i]]
            #![trigger final(held)@[i]]
            0 <= i < old(filled)@.len() ==> body_of(
                final(filled)@,
                final(pos)@,
                final(ttl)@,
                final(held)@,
                i,
            ) == aged(
                body_of(old(filled)@, old(pos)@, old(ttl)@, old(held)@, i),
                arrived@[i],
                homes@[i],
                member_ttl,
            ),
{
    let ghost (f0, p0, t0, h0) = (filled@, pos@, ttl@, held@);
    let mut i: usize = 0;
    while i < filled.len()
        invariant
            i <= filled@.len(),
            filled@.len() == f0.len(),
            pos@.len() == f0.len(),
            ttl@.len() == f0.len(),
            held@.len() == f0.len(),
            arrived@.len() == f0.len(),
            homes@.len() == f0.len(),
            forall|k: int|
                #![trigger filled@[k]]
                #![trigger pos@[k]]
                #![trigger ttl@[k]]
                #![trigger held@[k]]
                0 <= k < f0.len() ==> body_of(filled@, pos@, ttl@, held@, k) == if k < i {
                    aged(body_of(f0, p0, t0, h0, k), arrived@[k], homes@[k], member_ttl)
                } else {
                    body_of(f0, p0, t0, h0, k)
                },
        decreases filled.len() - i,
    {
        let b: Body = Body { filled: filled[i], pos: pos[i], ttl: ttl[i], held: held[i] };
        assert(b == body_of(f0, p0, t0, h0, i as int));
        let x: Body = age_one(b, arrived[i], homes[i], member_ttl);
        filled.set(i, x.filled);
        pos.set(i, x.pos);
        ttl.set(i, x.ttl);
        held.set(i, x.held);
        i = i + 1;
    }
}

fn assault_members(
    filled: &mut Vec<bool>,
    pos: &mut Vec<WPos>,
    ttl: &Vec<u32>,
    held: &mut Vec<bool>,
    plan: &ExtendedTravel,
    fight_buffer: u32,
)
    requires
        old(pos)@.len() == old(filled)@.len(),
        ttl@.len() == old(filled)@.len(),
        old(held)@.len() == old(filled)@.len(),
        plan.homes@.len() == old(filled)@.len(),
    ensures
        final(filled)@.len() == old(filled)@.len(),
        final(pos)@.len() == old(filled)@.len(),
        final(held)@.len() == old(filled)@.len(),
        forall|i: int|
            #![trigger final(filled)@[i]]
            #![trigger final(pos)@[i]]
            #![trigger final(held)@[i]]
            0 <= i < old(filled)@.len() ==> body_of(
                final(filled)@,
                final(pos)@,
                ttl@,
                final(held)@,
                i,
            ) == assaulted(
                body_of(old(filled)@, old(pos)@, ttl@, old(held)@, i),
                plan.homes@[i],
                plan.target,
                plan.blocked_rooms@,
                fight_buffer,
            ),
{
    let ghost (f0, p0, h0) = (filled@, pos@, held@);
    let mut i: usize = 0;
    while i < filled.len()
        invariant
            i <= filled@.len(),
            filled@.len() == f0.len(),
            pos@.len() == f0.len(),
            ttl@.len() == f0.len(),
            held@.len() == f0.len(),
            plan.homes@.len() == f0.len(),
            forall|k: int|
                #![trigger filled@[k]]
                #![trigger pos@[k]]
                #![trigger held@[k]]
                0 <= k < f0.len() ==> body_of(filled@, pos@, ttl@, held@, k) == if k < i {
                    assaulted(
                        body_of(f0, p0, ttl@, h0, k),
                        plan.homes@[k],
                        plan.target,
                        plan.blocked_rooms@,
                        fight_buffer,
                    )
                } else {
                    body_of(f0, p0, ttl@, h0, k)
                },
        decreases filled.len() - i,
    {
        let b: Body = Body { filled: filled[i], pos: pos[i], ttl: ttl[i], held: held[i] };
        assert(b == body_of(f0, p0, ttl@, h0, i as int));
        let x: Body = assault_one(b, plan.homes[i], plan.target, &plan.blocked_rooms, fight_buffer);
        filled.set(i, x.filled);
        pos.set(i, x.pos);
        held.set(i, x.held);
        i = i + 1;
    }
}

/// A far-home run in progress.
#[derive(Clone, Debug)]
pub struct ExtendedRun {
    plan: ExtendedTravel,
    rules: RallyRules,
    budget: u32,
    member_ttl: u32,
    colony: Colony,
    tick: u32,
    generation: u32,
    max_present: usize,
    max_gathered: usize,
    oscillations: u32,
    prev_gathered: bool,
    deadline: u32,
    prev_present: usize,
    gen_start: u32,
    travel_start: u32,
    pos: Vec<WPos>,
    departed: bool,
    gathered: bool,
    prev_min: Option<u32>,
    prev_dist: Vec<Option<u32>>,
    streak: Vec<u32>,
    excluded: Vec<bool>,
    ttl: Vec<u32>,
    held: Vec<bool>,
    present: usize,
    in_flight: bool,
    seen: Vec<WPos>,
    rally: WPos,
    traveling: bool,
    progress: bool,
    in_room: bool,
    combat: Vec<QueuedSpawn>,
    lane: usize,
}

impl View for ExtendedRun {
    type V = ExtendedView;

    closed spec fn view(&self) -> ExtendedView {
        ExtendedView {
            plan: self.plan,
            rules: self.rules,
            budget: self.budget,
            member_ttl: self.member_ttl,
            colony: self.colony@,
            tick: self.tick,
            generation: self.generation,
            max_present: self.max_present,
            max_gathered: self.max_gathered,
            oscillations: self.oscillations,
            prev_gathered: self.prev_gathered,
            deadline: self.deadline,
            prev_present: self.prev_present,
            gen_start: self.gen_start,
            travel_start: self.travel_start,
            pos: self.pos@,
            departed: self.departed,
            gathered: self.gathered,
            prev_min: self.prev_min,
            prev_dist: self.prev_dist@,
            streak: self.streak@,
            excluded: self.excluded@,
            ttl: self.ttl@,
            held: self.held@,
            present: self.present,
            in_flight: self.in_flight,
            seen: self.seen@,
            rally: self.rally,
            traveling: self.traveling,
            progress: self.progress,
            in_room: self.in_room,
            combat: self.combat@,
            lane: self.lane,
        }
    }
}

fn no_readings(n: usize) -> (r: Vec<Option<u32>>)
    ensures
        r@ == no_dists(n as nat),
{
    let mut v: Vec<Option<u32>> = Vec::new();
    let mut i: usize = 0;
    while i < n
        invariant
            i <= n,
            v@ == no_dists(i as nat),
        decreases n - i,
    {
        v.push(None);
        i = i + 1;
    }
    v
}

proof fn lemma_step_in_world(a: WPos, b: WPos)
    requires
        a.in_world(),
        b.in_world(),
    ensures
        a.stepped(b).in_world(),
{
}

impl ExtendedRun {
    fn verdict(&self) -> (r: ChurnOutcome)
        ensures
            r == self@.verdict(),
    {
        if self.departed {
            if self.oscillations > 0 {
                ChurnOutcome::OscillatedNeverGathered {
                    generations: self.generation,
                    max_gathered: self.max_gathered,
                }
            } else {
                ChurnOutcome::LapsedInTravel { generations: self.generation }
            }
        } else {
            ChurnOutcome::ChurnedNeverDeployed {
                generations: self.generation,
                max_present: self.max_present,
            }
        }
    }

    fn open_tick(&mut self) -> (r: ExtendedRequest)
        requires
            old(self)@.wf(false),
        ensures
            (final(self)@, r@) == old(self)@.opened(),
            final(self)@.wf(false),
            final(self)@.tick == old(self)@.tick,
            !(r is Finished) ==> old(self)@.tick < old(self)@.budget,
    {
        if self.tick >= self.budget {
            return ExtendedRequest::Finished(self.verdict());
        }
        let ghost v0 = self@;
        let arrived: Vec<bool> = self.colony.advance(self.tick);
        let ghost moved = self@;
        assert(moved =~= ExtendedView { colony: v0.colony.advanced(v0.tick), ..v0 });
        age_members(
            &mut self.colony.filled,
            &mut self.pos,
            &mut self.ttl,
            &mut self.held,
            &arrived,
            &self.plan.homes,
            self.member_ttl,
        );
        let ghost a = v0.aged();
        assert forall|i: int| 0 <= i < v0.slots() implies body_of(
            self.colony.filled@,
            self.pos@,
            self.ttl@,
            self.held@,
            i,
        ) == aged(moved.body(i), arrived@[i], v0.plan.homes@[i], v0.member_ttl) by {
            let _ = self.pos@[i];
        }
        assert(self.colony.filled@ =~= a.colony.filled);
        assert(self.pos@ =~= a.pos);
        assert(self.ttl@ =~= a.ttl);
        assert(self.held@ =~= a.held);
        assert(self@ =~= a);
        let present: usize = self.colony.present();
        self.present = present;
        if present >= self.max_present {
            self.max_present = present;
        }
        self.traveling = false;
        self.progress = false;
        self.in_room = false;
        assert(self@ =~= v0.opened().0);
        ExtendedRequest::FieldCheck { filled: copied(&self.colony.filled) }
    }

    fn next_tick(&mut self) -> (r: ExtendedRequest)
        requires
            old(self)@.wf(true),
            old(self)@.tick < old(self)@.budget,
        ensures
            (final(self)@, r@) == old(self)@.next_tick(),
            final(self)@.wf(false),
            !(r is Finished) ==> final(self)@.tick < final(self)@.budget,
    {
        let ghost v0 = self@;
        self.tick = self.tick + 1;
        assert(self@ =~= ExtendedView { tick: (v0.tick + 1) as u32, ..v0 });
        self.open_tick()
    }

    fn ask_rally(&mut self) -> (r: ExtendedRequest)
        requires
            old(self)@.wf(false),
        ensures
            (final(self)@, r@) == old(self)@.rally_asked(),
            final(self)@.wf(false),
    {
        let ghost v0 = self@;
        self.traveling = true;
        let positions: Vec<WPos> = copied(&self.seen);
        assert(self@ =~= v0.rally_asked().0);
        let r = ExtendedRequest::Rally {
            positions,
            target: self.plan.target,
            uncontested: self.plan.uncontested,
        };
        assert(r@ =~= v0.rally_asked().1);
        r
    }

    /// Answer to [`ExtendedRequest::FieldCheck`]: whether any unfilled slot would
    /// be fielded.
    pub fn field_checked(&mut self, any: bool) -> (r: ExtendedRequest)
        requires
            old(self)@.wf(false),
        ensures
            (final(self)@, r@) == old(self)@.field_checked(any),
            final(self)@.wf(false),
            final(self)@.tick == old(self)@.tick,
    {
        let ghost v0 = self@;
        self.in_flight = self.colony.pipeline_busy() || any;
        self.seen = collect_flagged(&self.colony.filled, &self.pos);
        if self.departed {
            assert(self@ =~= ExtendedView {
                in_flight: v0.colony.pipeline_busy() || any,
                seen: flagged(v0.colony.filled, v0.pos),
                ..v0
            });
            return self.ask_rally();
        }
        let positions: Vec<WPos> = copied(&self.seen);
        assert(self@ =~= v0.field_checked(any).0);
        let r = ExtendedRequest::Gate {
            positions,
            slots: self.colony.filled.len(),
            uncontested: self.plan.uncontested,
        };
        assert(r@ =~= v0.field_checked(any).1);
        r
    }

    fn renew(&mut self)
        requires
            old(self)@.wf(true),
        ensures
            final(self)@ == old(self)@.renew_done(),
            final(self)@.wf(true),
            old(self)@.wf(false) ==> final(self)@.wf(false),
    {
        if !self.plan.renew_in_transit {
            return ;
        }
        let ghost v0 = self@;
        let flags: Vec<bool> = self.renewable_flags();
        let lanes: usize = free_lane_count(&self.colony.busy_until, self.tick);
        self.ttl = renew_members(&flags, &self.ttl, lanes, self.rules.renew_target_ttl);
        assert(self@ =~= v0.renew_done());
    }

    fn renewable_flags(&self) -> (r: Vec<bool>)
        requires
            self@.wf(true),
        ensures
            r@ == self@.renewables(),
    {
        let mut out: Vec<bool> = Vec::new();
        let mut i: usize = 0;
        while i < self.colony.filled.len()
            invariant
                self@.wf(true),
                i <= self@.slots(),
                out@ == self@.renewables().take(i as int),
            decreases self.colony.filled.len() - i,
        {
            let at_home: bool = self.held[i] || (!self.departed && self.pos[i]
                == self.plan.homes[i]);
            let at_rally: bool = self.departed && self.plan.rally_spawn && tile_range(
                self.pos[i],
                self.rally,
            ) <= self.rules.gather_radius;
            let fits: bool = self.colony.filled[i] && self.ttl[i] < self.rules.renew_target_ttl && (
            at_home || at_rally);
            assert(fits == self@.renewable(i as int));
            out.push(fits);
            i = i + 1;
            assert(out@ =~= self@.renewables().take(i as int));
        }
        assert(out@ =~= self@.renewables());
        out
    }

    fn snapshot(&self) -> (r: ReconcileSnapshot)
        ensures
            r == self@.snapshot(),
    {
        let has_members: bool = self.present > 0 || self.colony.pipeline_busy();
        let forming: bool = has_members && !self.departed && self.present
            < self.colony.filled.len();
        ReconcileSnapshot {
            objective_gone: false,
            duplicate: false,
            is_defend: false,
            deadline_lapsed: self.tick >= self.deadline,
            wiped: false,
            has_focus: false,
            engaged_once: false,
            in_target_room: self.in_room,
            has_members,
            forming,
            forming_progress: forming && self.present > self.prev_present,
            forming_in_flight: forming && self.in_flight,
            forming_budget_remaining: ticks_since(self.tick, self.gen_start) < MAX_FORMING_BUDGET,
            traveling: self.traveling,
            travel_progress: self.progress,
            travel_budget_remaining: ticks_since(self.tick, self.travel_start) < MAX_TRAVEL_BUDGET,
            holding_station: false,
            declaiming: false,
            reassign_available: false,
            retreated_from_contact: false,
        }
    }

    fn rest(&mut self) -> (r: ExtendedRequest)
        requires
            old(self)@.wf(true),
        ensures
            (final(self)@, r@) == old(self)@.rested(),
            final(self)@.wf(true),
    {
        self.renew();
        ExtendedRequest::Reconcile(self.snapshot())
    }

    /// Answer to [`ExtendedRequest::Gate`]: whether the squad may depart.
    pub fn gated(&mut self, open: bool) -> (r: ExtendedRequest)
        requires
            old(self)@.wf(false),
        ensures
            (final(self)@, r@) == old(self)@.gated(open),
            final(self)@.wf(r is Reconcile),
            final(self)@.tick == old(self)@.tick,
    {
        if open {
            let ghost v0 = self@;
            self.departed = true;
            self.travel_start = self.tick;
            assert(self@ =~= ExtendedView { departed: true, travel_start: v0.tick, ..v0 });
            self.ask_rally()
        } else {
            self.rest()
        }
    }

    fn reachable_flags(&self) -> (r: Vec<bool>)
        requires
            self@.wf(true),
        ensures
            r@ == self@.reachable(),
    {
        let mut out: Vec<bool> = Vec::new();
        let mut i: usize = 0;
        while i < self.colony.filled.len()
            invariant
                self@.wf(true),
                i <= self@.slots(),
                out@ == self@.reachable().take(i as int),
            decreases self.colony.filled.len() - i,
        {
            out.push(self.colony.filled[i] && !self.excluded[i]);
            i = i + 1;
            assert(out@ =~= self@.reachable().take(i as int));
        }
        assert(out@ =~= self@.reachable());
        out
    }

    /// Answer to [`ExtendedRequest::Rally`]: where the squad rallies.
    pub fn rallied(&mut self, rally: WPos) -> (r: ExtendedRequest)
        requires
            old(self)@.wf(false),
            rally.in_world(),
        ensures
            (final(self)@, r@) == old(self)@.rallied(rally),
            final(self)@.wf(false),
            final(self)@.tick == old(self)@.tick,
    {
        let ghost v0 = self@;
        self.rally = rally;
        let flags: Vec<bool> = self.reachable_flags();
        let reachable: Vec<WPos> = collect_flagged(&flags, &self.pos);
        let positions: Vec<WPos> = collect_flagged(&self.colony.filled, &self.pos);
        let out: usize = count_flags(&self.excluded);
        proof {
            lemma_count_bound(self.excluded@);
        }
        let has_fighter: bool = positions.len() > 0;
        assert(self@ =~= v0.rallied(rally).0);
        let r = ExtendedRequest::Gather {
            reachable,
            effective_slots: self.colony.filled.len() - out,
            positions,
            rally,
            uncontested: self.plan.uncontested,
            has_fighter,
        };
        assert(r@ =~= v0.rallied(rally).1);
        r
    }

    /// Answer to [`ExtendedRequest::Gather`]: whether the quorum is met, and how
    /// many members stand at the rally.
    pub fn gather_known(&mut self, quorum: bool, count: usize) -> (r: ExtendedRequest)
        requires
            old(self)@.wf(false),
            old(self)@.departed,
        ensures
            (final(self)@, r@) == old(self)@.gather_known(quorum, count),
            final(self)@.wf(!(r is Lifetimes)),
            final(self)@.tick == old(self)@.tick,
    {
        let ghost v0 = self@;
        let now: bool = quorum || someone_in_room(&self.colony.filled, &self.pos, self.plan.target);
        if count >= self.max_gathered {
            self.max_gathered = count;
        }
        self.gathered = self.gathered || now;
        self.prev_gathered = self.gathered;
        let ghost v1 = self@;
        if self.gathered {
            self.assault()
        } else if self.plan.lifetime_gate {
            let q: Vec<LifetimeQuery> = self.lifetime_queries();
            let r = ExtendedRequest::Lifetimes(q);
            assert(r@ =~= v0.gather_known(quorum, count).1);
            r
        } else {
            let none: Vec<bool> = no_flags(self.colony.filled.len());
            self.solo(&none)
        }
    }

    fn assault(&mut self) -> (r: ExtendedRequest)
        requires
            old(self)@.wf(false),
            old(self)@.departed,
        ensures
            (final(self)@, r@) == old(self)@.assault(),
            final(self)@.wf(true),
            !(r is Lifetimes),
            final(self)@.tick == old(self)@.tick,
    {
        let ghost v0 = self@;
        assault_members(
            &mut self.colony.filled,
            &mut self.pos,
            &self.ttl,
            &mut self.held,
            &self.plan,
            self.rules.fight_buffer,
        );
        let ghost m = v0.assault_bodies();
        assert forall|i: int| 0 <= i < v0.slots() implies body_of(
            self.colony.filled@,
            self.pos@,
            self.ttl@,
            self.held@,
            i,
        ) == assaulted(
            v0.body(i),
            v0.plan.homes@[i],
            v0.plan.target,
            v0.plan.blocked_rooms@,
            v0.rules.fight_buffer,
        ) && self.pos@[i].in_world() by {
            let _ = self.pos@[i];
            lemma_step_in_world(v0.pos[i], v0.plan.target);
        }
        assert(self.colony.filled@ =~= m.colony.filled);
        assert(self.pos@ =~= m.pos);
        assert(self.held@ =~= m.held);
        assert(self.ttl@ =~= m.ttl);
        assert(self@ =~= m);
        if someone_in_room(&self.colony.filled, &self.pos, self.plan.target) {
            self.in_room = true;
            assert(self@ =~= v0.assault().0);
            return ExtendedRequest::Finished(
                ChurnOutcome::DeployedAndEngaged {
                    generations: self.generation,
                    engage_tick: self.tick,
                },
            );
        }
        let dists: Vec<Option<u32>> = measure_rooms(
            &self.colony.filled,
            &self.pos,
            self.plan.target,
        );
        let cur: Option<u32> = least_of(&dists);
        self.progress = is_closing(cur, self.prev_min);
        self.prev_min = cur;
        assert(self@ =~= ExtendedView {
            progress: closing(cur, v0.prev_min),
            prev_min: cur,
            ..m
        });
        self.rest()
    }

    fn lifetime_queries(&self) -> (r: Vec<LifetimeQuery>)
        requires
            self@.wf(false),
        ensures
            r@ == self@.lifetime_queries(),
    {
        let mut out: Vec<LifetimeQuery> = Vec::new();
        let onward: u32 = self.rally.room_dist(self.plan.target);
        let mut i: usize = 0;
        while i < self.colony.filled.len()
            invariant
                self@.wf(false),
                i <= self@.slots(),
                onward == self@.rally.rooms_to(self@.plan.target),
                out@ == self@.lifetime_queries().take(i as int),
            decreases self.colony.filled.len() - i,
        {
            let concerned: bool = self.colony.filled[i] && !self.excluded[i] && tile_range(
                self.pos[i],
                self.rally,
            ) > self.rules.gather_radius;
            let q: LifetimeQuery = if concerned {
                LifetimeQuery {
                    asked: true,
                    ttl: self.ttl[i],
                    rooms_to_rally: self.pos[i].room_dist(self.rally),
                    rally_to_target: onward,
                }
            } else {
                LifetimeQuery { asked: false, ttl: 0, rooms_to_rally: 0, rally_to_target: 0 }
            };
            assert(q == self@.lifetime_query(i as int));
            out.push(q);
            i = i + 1;
            assert(out@ =~= self@.lifetime_queries().take(i as int));
        }
        assert(out@ =~= self@.lifetime_queries());
        out
    }

    /// Answer to [`ExtendedRequest::Lifetimes`]: which members live long enough.
    pub fn lifetimes_known(&mut self, commits: &Vec<bool>) -> (r: ExtendedRequest)
        requires
            old(self)@.wf(false),
            old(self)@.departed,
            commits@.len() == old(self)@.slots(),
        ensures
            (final(self)@, r@) == old(self)@.solo(commits@),
            final(self)@.wf(true),
            final(self)@.tick == old(self)@.tick,
    {
        self.solo(commits)
    }

    fn solo(&mut self, commits: &Vec<bool>) -> (r: ExtendedRequest)
        requires
            old(self)@.wf(false),
            old(self)@.departed,
            commits@.len() == old(self)@.slots(),
        ensures
            (final(self)@, r@) == old(self)@.solo(commits@),
            final(self)@.wf(true),
            !(r is Lifetimes),
            final(self)@.tick == old(self)@.tick,
    {
        let ghost v0 = self@;
        let reachable: Vec<bool> = self.reachable_flags();
        let steps: Vec<SoloStep> = self.solo_move(commits);
        let ghost m = v0.solo_moved(commits@);
        let dists: Vec<Option<u32>> = measure_rooms(&reachable, &self.pos, self.rally);
        let ghost d = room_dists(v0.reachable(), m.pos, v0.rally);
        if self.plan.majority_progress {
            let steady: Vec<bool> = steady_flags(&dists, &self.prev_dist, &steps);
            assert(steady@ =~= v0.progressing(commits@, d));
            let good: usize = count_flags(&steady);
            let all: usize = count_flags(&reachable);
            proof {
                lemma_count_le(steady@, reachable@);
            }
            self.progress = good > all - good;
        } else {
            let cur: Option<u32> = least_of(&dists);
            self.progress = is_closing(cur, self.prev_min);
            self.prev_min = cur;
        }
        self.prev_dist = dists;
        if self.plan.escalate_on_block && self.plan.tight_stall_window {
            self.excluded = stalled_flags(&self.excluded, &self.colony.filled, &self.streak);
        }
        assert(self.excluded@ =~= v0.left_out(m));
        let ghost w = ExtendedView {
            progress: if v0.plan.majority_progress {
                2 * count_true(v0.progressing(commits@, d)) > count_true(v0.reachable())
            } else {
                closing(least(d), v0.prev_min)
            },
            prev_min: if v0.plan.majority_progress {
                v0.prev_min
            } else {
                least(d)
            },
            prev_dist: d,
            excluded: v0.left_out(m),
            ..m
        };
        assert(self@ =~= w);
        self.rest()
    }

    fn solo_move(&mut self, commits: &Vec<bool>) -> (r: Vec<SoloStep>)
        requires
            old(self)@.wf(false),
            commits@.len() == old(self)@.slots(),
        ensures
            final(self)@ == old(self)@.solo_moved(commits@),
            final(self)@.wf(true),
            r@ == Seq::new(old(self)@.slots(), |i: int| old(self)@.solo_step(commits@, i)),
    {
        let ghost v0 = self@;
        let steps: Vec<SoloStep> = self.solo_steps(commits);
        let (pos, held, streak): (Vec<WPos>, Vec<bool>, Vec<u32>) = spread_steps(&steps);
        proof {
            assert forall|i: int| 0 <= i < v0.slots() implies (#[trigger] pos@[i]).in_world() by {
                assert(pos@[i] == v0.solo_step(commits@, i).pos);
                lemma_step_in_world(v0.pos[i], v0.rally);
            }
            assert forall|i: int| 0 <= i < v0.slots() implies #[trigger] streak@[i] <= v0.tick
                + 1 by {
                assert(streak@[i] == v0.solo_step(commits@, i).streak);
                assert(v0.streak[i] <= v0.tick);
            }
        }
        self.pos = pos;
        self.held = held;
        self.streak = streak;
        let ghost m = v0.solo_moved(commits@);
        assert(self.pos@ =~= m.pos);
        assert(self.held@ =~= m.held);
        assert(self.streak@ =~= m.streak);
        assert(self@ =~= m);
        steps
    }

    fn solo_steps(&self, commits: &Vec<bool>) -> (r: Vec<SoloStep>)
        requires
            self@.wf(false),
            commits@.len() == self@.slots(),
        ensures
            r@ == Seq::new(self@.slots(), |i: int| self@.solo_step(commits@, i)),
    {
        let ghost all = Seq::new(self@.slots(), |i: int| self@.solo_step(commits@, i));
        let mut out: Vec<SoloStep> = Vec::new();
        let mut i: usize = 0;
        while i < self.colony.filled.len()
            invariant
                self@.wf(false),
                commits@.len() == self@.slots(),
                i <= self@.slots(),
                all == Seq::new(self@.slots(), |i: int| self@.solo_step(commits@, i)),
                out@ == all.take(i as int),
            decreases self.colony.filled.len() - i,
        {
            let b: Body = Body {
                filled: self.colony.filled[i],
                pos: self.pos[i],
                ttl: self.ttl[i],
                held: self.held[i],
            };
            assert(b == self@.body(i as int));
            assert(self@.streak[i as int] <= self@.tick);
            let x: SoloStep = solo_one(
                b,
                self.excluded[i],
                self.streak[i],
                self.rally,
                self.rules.gather_radius,
                &self.plan.blocked_rooms,
                self.plan.lifetime_gate,
                commits[i],
            );
            out.push(x);
            i = i + 1;
            assert(out@ =~= all.take(i as int));
        }
        assert(out@ =~= all);
        out
    }
}

fn free_lane_count(busy_until: &Vec<u32>, tick: u32) -> (r: usize)
    ensures
        r == count_true(free_lanes(busy_until@, tick)),
{
    let mut flags: Vec<bool> = Vec::new();
    let mut h: usize = 0;
    while h < busy_until.len()
        invariant
            h <= busy_until.len(),
            flags@ == free_lanes(busy_until@, tick).take(h as int),
        decreases busy_until.len() - h,
    {
        flags.push(tick >= busy_until[h]);
        h = h + 1;
        assert(flags@ =~= free_lanes(busy_until@, tick).take(h as int));
    }
    assert(flags@ =~= free_lanes(busy_until@, tick));
    count_flags(&flags)
}

fn count_ahead(renewable: &Vec<bool>, ttl: &Vec<u32>, i: usize) -> (r: usize)
    requires
        renewable@.len() == ttl@.len(),
        i < ttl@.len(),
    ensures
        r == count_true(ahead_of(renewable@, ttl@, i as int)),
{
    let mut flags: Vec<bool> = Vec::new();
    let mut j: usize = 0;
    while j < ttl.len()
        invariant
            renewable@.len() == ttl@.len(),
            i < ttl@.len(),
            j <= ttl@.len(),
            flags@ == ahead_of(renewable@, ttl@, i as int).take(j as int),
        decreases ttl.len() - j,
    {
        flags.push(renewable[j] && (ttl[j] < ttl[i] || (ttl[j] == ttl[i] && j < i)));
        j = j + 1;
        assert(flags@ =~= ahead_of(renewable@, ttl@, i as int).take(j as int));
    }
    assert(flags@ =~= ahead_of(renewable@, ttl@, i as int));
    count_flags(&flags)
}

fn renew_members(renewable: &Vec<bool>, ttl: &Vec<u32>, lanes: usize, goal: u32) -> (r: Vec<u32>)
    requires
        renewable@.len() == ttl@.len(),
        goal + RENEW_PER_TICK <= u32::MAX,
        forall|i: int| 0 <= i < ttl@.len() && renewable@[i] ==> #[trigger] ttl@[i] < goal,
    ensures
        r@ == renewed(renewable@, ttl@, lanes as nat, goal),
{
    let ghost all = renewed(renewable@, ttl@, lanes as nat, goal);
    let mut out: Vec<u32> = Vec::new();
    let mut i: usize = 0;
    while i < ttl.len()
        invariant
            renewable@.len() == ttl@.len(),
            goal + RENEW_PER_TICK <= u32::MAX,
            forall|k: int| 0 <= k < ttl@.len() && renewable@[k] ==> #[trigger] ttl@[k] < goal,
            i <= ttl@.len(),
            all == renewed(renewable@, ttl@, lanes as nat, goal),
            out@ == all.take(i as int),
        decreases ttl.len() - i,
    {
        let before: usize = count_ahead(renewable, ttl, i);
        let now: u32 = ttl[i];
        let next: u32 = if renewable[i] && before < lanes {
            if now + RENEW_PER_TICK <= goal {
                now + RENEW_PER_TICK
            } else {
                goal
            }
        } else {
            now
        };
        out.push(next);
        i = i + 1;
        assert(out@ =~= all.take(i as int));
    }
    assert(out@ =~= all);
    out
}

fn spread_steps(steps: &Vec<SoloStep>) -> (r: (Vec<WPos>, Vec<bool>, Vec<u32>))
    ensures
        r.0@ == Seq::new(steps@.len(), |i: int| steps@[i].pos),
        r.1@ == Seq::new(steps@.len(), |i: int| steps@[i].held),
        r.2@ == Seq::new(steps@.len(), |i: int| steps@[i].streak),
{
    let mut pos: Vec<WPos> = Vec::new();
    let mut held: Vec<bool> = Vec::new();
    let mut streak: Vec<u32> = Vec::new();
    let mut i: usize = 0;
    while i < steps.len()
        invariant
            i <= steps@.len(),
            pos@ == Seq::new(i as nat, |k: int| steps@[k].pos),
            held@ == Seq::new(i as nat, |k: int| steps@[k].held),
            streak@ == Seq::new(i as nat, |k: int| steps@[k].streak),
        decreases steps.len() - i,
    {
        pos.push(steps[i].pos);
        held.push(steps[i].held);
        streak.push(steps[i].streak);
        i = i + 1;
    }
    (pos, held, streak)
}

fn steady_flags(
    dists: &Vec<Option<u32>>,
    prev: &Vec<Option<u32>>,
    steps: &Vec<SoloStep>,
) -> (r: Vec<bool>)
    requires
        dists@.len() == prev@.len(),
        dists@.len() == steps@.len(),
    ensures
        r@ == Seq::new(
            dists@.len(),
            |i: int| dists@[i] is Some && (closing(dists@[i], prev@[i]) || steps@[i].at_rally),
        ),
{
    let mut out: Vec<bool> = Vec::new();
    let mut i: usize = 0;
    while i < dists.len()
        invariant
            dists@.len() == prev@.len(),
            dists@.len() == steps@.len(),
            i <= dists@.len(),
            out@ == Seq::new(
                i as nat,
                |k: int| dists@[k] is Some && (closing(dists@[k], prev@[k]) || steps@[k].at_rally),
            ),
        decreases dists.len() - i,
    {
        out.push(dists[i].is_some() && (is_closing(dists[i], prev[i]) || steps[i].at_rally));
        i = i + 1;
    }
    out
}

fn stalled_flags(excluded: &Vec<bool>, filled: &Vec<bool>, streak: &Vec<u32>) -> (r: Vec<bool>)
    requires
        excluded@.len() == filled@.len(),
        excluded@.len() == streak@.len(),
    ensures
        r@ == Seq::new(
            excluded@.len(),
            |i: int| excluded@[i] || (filled@[i] && streak@[i] >= SOLO_TRAVEL_STALL_WINDOW),
        ),
{
    let mut out: Vec<bool> = Vec::new();
    let mut i: usize = 0;
    while i < excluded.len()
        invariant
            excluded@.len() == filled@.len(),
            excluded@.len() == streak@.len(),
            i <= excluded@.len(),
            out@ == Seq::new(
                i as nat,
                |k: int| excluded@[k] || (filled@[k] && streak@[k] >= SOLO_TRAVEL_STALL_WINDOW),
            ),
        decreases excluded.len() - i,
    {
        out.push(excluded[i] || (filled[i] && streak[i] >= SOLO_TRAVEL_STALL_WINDOW));
        i = i + 1;
    }
    out
}

proof fn lemma_count_le(a: Seq<bool>, b: Seq<bool>)
    requires
        a.len() == b.len(),
        forall|i: int| 0 <= i < a.len() && #[trigger] a[i] ==> b[i],
    ensures
        count_true(a) <= count_true(b),
    decreases a.len(),
{
    if a.len() > 0 {
        lemma_count_le(a.drop_last(), b.drop_last());
    }
}

fn free_roster(n: usize) -> (r: (Vec<Option<u32>>, Vec<u32>, Vec<bool>, Vec<u32>, Vec<bool>))
    ensures
        r.0@ == no_dists(n as nat),
        r.1@ == zeros(n as nat),
        r.2@ == all_false(n as nat),
        r.3@ == zeros(n as nat),
        r.4@ == all_false(n as nat),
{
    (no_readings(n), no_ticks(n), no_flags(n), no_ticks(n), no_flags(n))
}

impl ExtendedRun {
    /// The run at its first tick, and its first question.
    pub fn start(s: &ColonyFormingScenario, plan: ExtendedTravel, rules: RallyRules) -> (r: (
        ExtendedRun,
        ExtendedRequest,
    ))
        requires
            homes_fit(s.homes@),
            plan_fits(plan, s.slots as nat),
            s.budget_ticks + COMMITMENT_BUDGET <= u32::MAX,
            rules.renew_target_ttl + RENEW_PER_TICK <= u32::MAX,
        ensures
            (r.0@, r.1@) == started(*s, plan, rules).opened(),
            r.0@.wf(false),
            !(r.1 is Finished) ==> r.0@.tick < r.0@.budget,
    {
        let colony: Colony = Colony::new(s);
        let (prev_dist, streak, excluded, ttl, held) = free_roster(s.slots);
        let pos: Vec<WPos> = copied(&plan.homes);
        let target: WPos = plan.target;
        let mut run = ExtendedRun {
            plan,
            rules,
            budget: s.budget_ticks,
            member_ttl: s.member_ttl,
            colony,
            tick: 0,
            generation: 0,
            max_present: 0,
            max_gathered: 0,
            oscillations: 0,
            prev_gathered: false,
            deadline: COMMITMENT_BUDGET,
            prev_present: 0,
            gen_start: 0,
            travel_start: 0,
            pos,
            departed: false,
            gathered: false,
            prev_min: None,
            prev_dist,
            streak,
            excluded,
            ttl,
            held,
            present: 0,
            in_flight: false,
            seen: Vec::new(),
            rally: target,
            traveling: false,
            progress: false,
            in_room: false,
            combat: Vec::new(),
            lane: 0,
        };
        assert(run@ =~= started(*s, plan, rules));
        let first: ExtendedRequest = run.open_tick();
        (run, first)
    }

    fn refield(&mut self)
        requires
            old(self)@.wf(true),
            old(self)@.tick < old(self)@.budget,
            !old(self)@.departed,
        ensures
            final(self)@ == old(self)@.refielded(),
    {
        let ghost v0 = self@;
        let n: usize = self.colony.filled.len();
        self.colony.refield();
        self.generation = self.generation + 1;
        self.deadline = self.tick + COMMITMENT_BUDGET;
        self.prev_present = 0;
        self.gen_start = self.tick;
        self.pos = copied(&self.plan.homes);
        self.departed = false;
        self.gathered = false;
        self.prev_min = None;
        let (prev_dist, streak, excluded, ttl, held) = free_roster(n);
        self.prev_dist = prev_dist;
        self.streak = streak;
        self.excluded = excluded;
        self.ttl = ttl;
        self.held = held;
        assert(self@ =~= v0.refielded());
    }

    fn keep(&mut self) -> (r: ExtendedRequest)
        requires
            old(self)@.wf(true),
            old(self)@.tick < old(self)@.budget,
        ensures
            (final(self)@, r@) == old(self)@.kept(),
            final(self)@.wf(r is FieldSpawn),
            !(r is Finished) ==> final(self)@.tick < final(self)@.budget,
    {
        let ghost v0 = self@;
        self.prev_present = self.present;
        assert(self@ =~= ExtendedView { prev_present: v0.present, ..v0 });
        if self.departed {
            self.next_tick()
        } else {
            ExtendedRequest::FieldSpawn { filled: copied(&self.colony.filled) }
        }
    }

    /// Answer to [`ExtendedRequest::Reconcile`]: the judgement on the squad.
    pub fn reconciled(&mut self, action: ReconcileAction) -> (r: ExtendedRequest)
        requires
            old(self)@.wf(true),
            old(self)@.tick < old(self)@.budget,
            !(action is Reassign),
        ensures
            (final(self)@, r@) == old(self)@.reconciled(action),
            final(self)@.wf(r is FieldSpawn || r is Finished),
            !(r is Finished) ==> final(self)@.tick < final(self)@.budget,
    {
        let ghost v0 = self@;
        match action {
            ReconcileAction::Retire { reason: RetireReason::GaveUp, .. } => {
                if self.departed {
                    ExtendedRequest::Finished(self.verdict())
                } else {
                    self.refield();
                    self.tick = self.tick + 1;
                    assert(self@ =~= ExtendedView {
                        tick: (v0.tick + 1) as u32,
                        ..v0.refielded()
                    });
                    self.open_tick()
                }
            },
            ReconcileAction::KeepRefreshLease => {
                self.deadline = self.tick + COMMITMENT_BUDGET;
                assert(self@ =~= ExtendedView {
                    deadline: (v0.tick + COMMITMENT_BUDGET) as u32,
                    ..v0
                });
                self.keep()
            },
            ReconcileAction::Keep => self.keep(),
            _ => ExtendedRequest::Finished(
                ChurnOutcome::ChurnedNeverDeployed {
                    generations: self.generation,
                    max_present: self.max_present,
                },
            ),
        }
    }

    fn next_lane(&mut self) -> (r: ExtendedRequest)
        requires
            old(self)@.wf(true),
            old(self)@.tick < old(self)@.budget,
        ensures
            (final(self)@, r@) == old(self)@.next_lane(),
            final(self)@.wf(r is RunLane),
            !(r is Finished) ==> final(self)@.tick < final(self)@.budget,
            r is RunLane ==> final(self)@.lane < final(self)@.colony.homes.len(),
    {
        let ghost v0 = self@;
        proof {
            lemma_scan_keeps(v0.colony, v0.tick, v0.lane as int);
        }
        let offer: Option<LaneOffer> = self.colony.next_offer(
            self.lane,
            self.tick,
            &self.combat,
            false,
        );
        match offer {
            None => {
                assert(self@ =~= ExtendedView {
                    colony: v0.colony.scanned(v0.tick, v0.lane as int).0,
                    ..v0
                });
                self.next_tick()
            },
            Some(o) => {
                self.lane = o.home;
                assert(self@ =~= v0.next_lane().0);
                let r = ExtendedRequest::RunLane(o);
                assert(r@ =~= v0.next_lane().1);
                r
            },
        }
    }

    /// Answer to [`ExtendedRequest::FieldSpawn`]: the slots to spawn.
    pub fn field_given(&mut self, combat: Vec<QueuedSpawn>) -> (r: ExtendedRequest)
        requires
            old(self)@.wf(true),
            old(self)@.tick < old(self)@.budget,
        ensures
            (final(self)@, r@) == old(self)@.field_given(combat@),
            final(self)@.wf(r is RunLane),
            !(r is Finished) ==> final(self)@.tick < final(self)@.budget,
            r is RunLane ==> final(self)@.lane < final(self)@.colony.homes.len(),
    {
        let ghost v0 = self@;
        self.combat = combat;
        self.lane = 0;
        assert(self@ =~= ExtendedView { combat: combat@, lane: 0, ..v0 });
        self.next_lane()
    }

    /// Answer to [`ExtendedRequest::RunLane`]: what the lane did.
    pub fn lane_done(&mut self, reply: &LaneReply) -> (r: ExtendedRequest)
        requires
            old(self)@.wf(true),
            old(self)@.tick < old(self)@.budget,
            old(self)@.lane < old(self)@.colony.homes.len(),
            reply_fits(
                *reply,
                old(self)@.tick,
                old(self)@.colony.homes[old(self)@.lane as int].income,
            ),
        ensures
            (final(self)@, r@) == old(self)@.lane_done(*reply),
            final(self)@.wf(r is RunLane),
            !(r is Finished) ==> final(self)@.tick < final(self)@.budget,
            r is RunLane ==> final(self)@.lane < final(self)@.colony.homes.len(),
    {
        let ghost v0 = self@;
        proof {
            lemma_booked_keeps(
                v0.colony,
                v0.lane as int,
                v0.tick,
                reply.available_energy,
                reply.spawned@,
            );
        }
        self.colony.settle(self.lane, self.tick, reply);
        self.lane = self.lane + 1;
        assert(self@ =~= ExtendedView {
            colony: v0.colony.booked(
                v0.lane as int,
                v0.tick,
                reply.available_energy,
                reply.spawned@,
            ),
            lane: (v0.lane + 1) as usize,
            ..v0
        });
        self.next_lane()
    }
}

/// The state before the first tick.
pub open spec fn started(
    s: ColonyFormingScenario,
    plan: ExtendedTravel,
    rules: RallyRules,
) -> ExtendedView {
    let n = s.slots as nat;
    ExtendedView {
        plan,
        rules,
        budget: s.budget_ticks,
        member_ttl: s.member_ttl,
        colony: fresh_colony(s.homes@, s.economy, n),
        tick: 0,
        generation: 0,
        max_present: 0,
        max_gathered: 0,
        oscillations: 0,
        prev_gathered: false,
        deadline: COMMITMENT_BUDGET,
        prev_present: 0,
        gen_start: 0,
        travel_start: 0,
        pos: plan.homes@,
        departed: false,
        gathered: false,
        prev_min: None,
        prev_dist: no_dists(n),
        streak: zeros(n),
        excluded: all_false(n),
        ttl: zeros(n),
        held: all_false(n),
        present: 0,
        in_flight: false,
        seen: seq![],
        rally: plan.target,
        traveling: false,
        progress: false,
        in_room: false,
        combat: seq![],
        lane: 0,
    }
}

// ── What each question and each answer is for ──────────────────────────────

/// The departure gate of a far-home squad is asked about the members present, where they
/// stand, the whole roster, and exactly the plan's own word on the target.
pub proof fn gate_is_asked_as_planned(v: ExtendedView, a: ExtendedAnswer, p: WPos)
    requires
        v.pos.len() == v.colony.filled.len(),
        v.answered(a).1 is Gate,
    ensures
        !v.departed,
        v.answered(a).1 matches ExtendedAsk::Gate { positions, slots, uncontested } && {
            &&& uncontested == v.plan.uncontested
            &&& slots == v.colony.filled.len()
            &&& positions.len() == count_true(v.colony.filled)
            &&& positions.contains(p) <==> exists|i: int|
                0 <= i < v.colony.filled.len() && v.colony.filled[i] && #[trigger] v.pos[i] == p
        },
{
    crate::travel::flagged_are_the_flagged_members(v.colony.filled, v.pos, p);
}

/// Two plans that differ in their word on the target only ask every question alike but for
/// that word.
pub proof fn contested_plans_ask_otherwise(v: ExtendedView, w: ExtendedView, any: bool)
    requires
        w == (ExtendedView {
            plan: ExtendedTravel { uncontested: !v.plan.uncontested, ..v.plan },
            ..v
        }),
    ensures
        !v.departed ==> (v.field_checked(any).1 matches ExtendedAsk::Gate {
            positions: p,
            slots: n,
            uncontested: u,
        } && w.field_checked(any).1 == (ExtendedAsk::Gate {
            positions: p,
            slots: n,
            uncontested: !u,
        })),
        v.departed ==> (v.field_checked(any).1 matches ExtendedAsk::Rally {
            positions: p,
            target: t,
            uncontested: u,
        } && w.field_checked(any).1 == (ExtendedAsk::Rally {
            positions: p,
            target: t,
            uncontested: !u,
        })),
{
}

/// A squad at home is asked for its departure, one under way for its rally on the way to the
/// plan's target.
pub proof fn squads_are_asked_by_stage(v: ExtendedView, any: bool)
    ensures
        !v.departed ==> v.field_checked(any).1 is Gate,
        v.departed ==> (v.field_checked(any).1 matches ExtendedAsk::Rally {
            target,
            uncontested,
            ..
        } && target == v.plan.target && uncontested == v.plan.uncontested
            && v.field_checked(any).0.traveling),
        v.field_checked(any).0.in_flight <==> any || v.colony.completing.len() > 0
            || v.colony.syncing.len() > 0,
        v.field_checked(any).0.colony == v.colony,
        v.field_checked(any).0.pos == v.pos,
        v.field_checked(any).0.departed == v.departed,
{
}

/// An open gate sends the squad off this tick; a closed one keeps it at home.
pub proof fn extended_gate_decides_the_departure(v: ExtendedView, open: bool)
    requires
        !v.departed,
    ensures
        open ==> v.gated(open).0.departed && v.gated(open).0.travel_start == v.tick && v.gated(
            open,
        ).1 is Rally && v.gated(open).0.pos == v.pos,
        !open ==> !v.gated(open).0.departed && v.gated(open).1 is Reconcile && v.gated(open).0.pos
            == v.pos,
        v.gated(open).0.colony == v.colony,
        v.gated(open).0.deadline == v.deadline,
{
}

/// The gathering is asked of the members still counted on, against the roster less those
/// left out, at the rally that was named.
pub proof fn gathering_is_asked_of_the_counted(v: ExtendedView, rally: WPos, p: WPos)
    requires
        v.pos.len() == v.colony.filled.len(),
        v.excluded.len() == v.colony.filled.len(),
    ensures
        v.rallied(rally).0.rally == rally,
        v.rallied(rally).1 matches ExtendedAsk::Gather {
            reachable,
            effective_slots,
            positions,
            rally: at,
            uncontested,
            has_fighter,
        } && {
            &&& at == rally
            &&& uncontested == v.plan.uncontested
            &&& effective_slots + count_true(v.excluded) == v.colony.filled.len()
            &&& has_fighter <==> count_true(v.colony.filled) > 0
            &&& positions.contains(p) <==> exists|i: int|
                0 <= i < v.colony.filled.len() && v.colony.filled[i] && #[trigger] v.pos[i] == p
            &&& reachable.contains(p) <==> exists|i: int|
                0 <= i < v.colony.filled.len() && v.colony.filled[i] && !v.excluded[i]
                    && #[trigger] v.pos[i] == p
        },
{
    crate::travel::flagged_are_the_flagged_members(v.colony.filled, v.pos, p);
    crate::travel::flagged_are_the_flagged_members(v.reachable(), v.pos, p);
    if exists|i: int|
        0 <= i < v.colony.filled.len() && v.colony.filled[i] && !v.excluded[i] && #[trigger] v.pos[i]
            == p {
        let i = choose|i: int|
            0 <= i < v.colony.filled.len() && v.colony.filled[i] && !v.excluded[i]
                && #[trigger] v.pos[i] == p;
        assert(v.reachable()[i] && v.pos[i] == p);
    }
    if exists|i: int| 0 <= i < v.reachable().len() && v.reachable()[i] && #[trigger] v.pos[i] == p {
        let i = choose|i: int|
            0 <= i < v.reachable().len() && v.reachable()[i] && #[trigger] v.pos[i] == p;
        assert(v.colony.filled[i] && !v.excluded[i] && v.pos[i] == p);
    }
}

/// A squad gathers by its quorum, by a member already in the target room, or because it had
/// gathered before. Until then it is asked for its lifetimes where the plan heeds them.
pub proof fn squads_gather_by_quorum_or_in_the_room(v: ExtendedView, quorum: bool, count: usize)
    ensures
        ({
            let (w, ask) = v.gather_known(quorum, count);
            let there = exists|i: int|
                0 <= i < v.colony.filled.len() && v.colony.filled[i] && (
                #[trigger] v.pos[i]).room_of() == v.plan.target.room_of();
            &&& w.gathered <==> v.gathered || quorum || there
            &&& w.max_gathered >= count && w.max_gathered >= v.max_gathered
            &&& w.max_gathered == count || w.max_gathered == v.max_gathered
            &&& !w.gathered && v.plan.lifetime_gate ==> ask is Lifetimes && w.pos == v.pos
            &&& !w.gathered && !v.plan.lifetime_gate ==> ask is Reconcile
            &&& w.gathered ==> ask is Reconcile || ask is Finished
        }),
{
}

/// The assault takes every free member one tile closer to the target, and the squad engages
/// exactly when a member is in the target room then.
pub proof fn assault_takes_members_to_the_target(v: ExtendedView, count: usize, i: int)
    requires
        0 <= i < v.colony.filled.len(),
        v.colony.filled[i],
        v.pos[i].room_of() != v.plan.target.room_of(),
        v.ttl[i] > v.rules.fight_buffer,
        !lists_room(v.plan.blocked_rooms@, v.pos[i].stepped(v.plan.target).room_of()),
    ensures
        ({
            let (w, ask) = v.gather_known(true, count);
            &&& w.pos[i].tiles_to(v.plan.target) == v.pos[i].tiles_to(v.plan.target) - 1
            &&& w.colony.filled[i]
            &&& w.pos[i].room_of() == v.plan.target.room_of() ==> ask == ExtendedAsk::Finished(
                ChurnOutcome::DeployedAndEngaged {
                    generations: v.generation,
                    engage_tick: v.tick,
                },
            )
        }),
{
    let w0 = ExtendedView {
        max_gathered: if count >= v.max_gathered {
            count
        } else {
            v.max_gathered
        },
        gathered: true,
        prev_gathered: true,
        ..v
    };
    crate::position::step_closes_distance(v.pos[i], v.plan.target);
    let m = w0.assault_bodies();
    assert(m.colony.filled[i]);
    assert(m.pos[i] == v.pos[i].stepped(v.plan.target));
}

/// A squad engages only with a member in the target room.
pub proof fn extended_engages_in_the_room(v: ExtendedView, a: ExtendedAnswer)
    requires
        v.answered(a).1 matches ExtendedAsk::Finished(o) && o is DeployedAndEngaged,
    ensures
        a is Gathered,
        v.answered(a).0.in_room,
        exists|i: int|
            0 <= i < v.answered(a).0.colony.filled.len() && v.answered(a).0.colony.filled[i] && (
            #[trigger] v.answered(a).0.pos[i]).room_of() == v.plan.target.room_of(),
{
    let w = v.answered(a).0;
    assert(any_in_room(w.colony.filled, w.pos, v.plan.target));
}

/// A present member loses a tick of life each tick, and is gone with the last. One that
/// arrives starts at home with a full life.
pub proof fn members_age_and_die(b: Body, home: WPos, full: u32)
    requires
        b.filled,
    ensures
        b.ttl > 1 ==> aged(b, false, home, full) == (Body { ttl: (b.ttl - 1) as u32, ..b }),
        b.ttl <= 1 ==> !aged(b, false, home, full).filled && aged(b, false, home, full).pos == home
            && !aged(b, false, home, full).held,
        full > 1 ==> ({
            let n = aged(b, true, home, full);
            n.filled && n.pos == home && n.ttl == full - 1
        }),
        !aged(Body { filled: false, ..b }, false, home, full).filled,
        aged(Body { filled: false, ..b }, false, home, full).ttl == b.ttl,
{
}

/// A member at the rally stays there, unheld; one left out or missing does not move.
pub proof fn gathered_and_left_out_members_stand(
    b: Body,
    streak: u32,
    rally: WPos,
    radius: u32,
    blocked: Seq<(i32, i32)>,
    gate: bool,
    commits: bool,
)
    ensures
        ({
            let s = soloed(b, true, streak, rally, radius, blocked, gate, commits);
            s.pos == b.pos && s.held == b.held && s.streak == streak && !s.at_rally
        }),
        b.filled && b.pos.tiles_to(rally) <= radius ==> ({
            let s = soloed(b, false, streak, rally, radius, blocked, gate, commits);
            s.pos == b.pos && !s.held && s.streak == 0 && s.at_rally
        }),
        !b.filled ==> soloed(b, false, streak, rally, radius, blocked, gate, commits).pos == b.pos
            && !soloed(b, false, streak, rally, radius, blocked, gate, commits).at_rally,
        b.filled && b.pos.tiles_to(rally) > radius && gate && commits ==> !soloed(
            b,
            false,
            streak,
            rally,
            radius,
            blocked,
            gate,
            commits,
        ).held,
{
}

/// A member's life is asked for where it is still counted on and still on its way, with its
/// own life and its two ways in rooms.
pub proof fn lifetimes_are_asked_of_the_walking(v: ExtendedView, i: int)
    requires
        0 <= i < v.colony.filled.len(),
    ensures
        ({
            let q = v.lifetime_queries()[i];
            let walks = v.colony.filled[i] && !v.excluded[i] && v.pos[i].tiles_to(v.rally)
                > v.rules.gather_radius;
            &&& v.lifetime_queries().len() == v.colony.filled.len()
            &&& q.asked <==> walks
            &&& walks ==> q.ttl == v.ttl[i]
            &&& walks ==> q.rooms_to_rally == v.pos[i].rooms_to(v.rally) as u32
            &&& walks ==> q.rally_to_target == v.rally.rooms_to(v.plan.target) as u32
        }),
{
}

/// Under majority rule a lone walk progresses with more than half of the counted members
/// closer or there, and with no fewer.
pub proof fn majority_carries_progress(v: ExtendedView, commits: Seq<bool>)
    requires
        v.plan.majority_progress,
    ensures
        ({
            let m = v.solo_moved(commits);
            let d = room_dists(v.reachable(), m.pos, v.rally);
            let yes = count_true(v.progressing(commits, d));
            let all = count_true(v.reachable());
            &&& yes == all && all > 0 ==> v.solo(commits).0.progress
            &&& 2 * yes <= all ==> !v.solo(commits).0.progress
            &&& 2 * yes > all ==> v.solo(commits).0.progress
            &&& v.solo(commits).0.prev_min == v.prev_min
        }),
{
}

/// A member counts as steady when its reading got smaller, when it is its first, or when it
/// stood at the rally; one that is not counted on never does.
pub proof fn steady_members_close_or_are_there(
    v: ExtendedView,
    commits: Seq<bool>,
    i: int,
)
    requires
        0 <= i < v.colony.filled.len(),
    ensures
        ({
            let m = v.solo_moved(commits);
            let d = room_dists(v.reachable(), m.pos, v.rally);
            let s = v.progressing(commits, d)[i];
            &&& !v.colony.filled[i] || v.excluded[i] ==> !s
            &&& v.colony.filled[i] && !v.excluded[i] && v.pos[i].tiles_to(v.rally)
                <= v.rules.gather_radius ==> s
            &&& v.colony.filled[i] && !v.excluded[i] && v.prev_dist[i] is None ==> s
            &&& v.colony.filled[i] && !v.excluded[i] && v.pos[i].tiles_to(v.rally)
                > v.rules.gather_radius && v.prev_dist[i] is Some ==> (s <==> d[i]->0
                < v.prev_dist[i]->0)
        }),
{
}

/// A member is left out for good, and for being blocked a hundred ticks only where the plan
/// escalates and watches the window.
pub proof fn only_stalled_members_are_left_out(v: ExtendedView, commits: Seq<bool>, i: int)
    requires
        0 <= i < v.colony.filled.len(),
        v.excluded.len() == v.colony.filled.len(),
    ensures
        ({
            let w = v.solo(commits).0;
            &&& v.excluded[i] ==> w.excluded[i]
            &&& w.excluded[i] && !v.excluded[i] ==> v.colony.filled[i]
                && v.plan.escalate_on_block && v.plan.tight_stall_window && v.solo_moved(
                commits,
            ).streak[i] >= 100
            &&& v.plan.escalate_on_block && v.plan.tight_stall_window && v.colony.filled[i]
                && v.solo_moved(commits).streak[i] >= 100 ==> w.excluded[i]
        }),
{
}

/// Renewal goes to the members with the least life: who is renewed has no more life left
/// than any other that could have been and was not.
pub proof fn renewal_goes_to_the_oldest(
    renewable: Seq<bool>,
    ttl: Seq<u32>,
    lanes: nat,
    i: int,
    j: int,
)
    requires
        renewable.len() == ttl.len(),
        0 <= i < ttl.len(),
        0 <= j < ttl.len(),
        renewable[j],
        renewals(renewable, ttl, lanes)[i],
        !renewals(renewable, ttl, lanes)[j],
    ensures
        ttl[i] <= ttl[j],
{
    if ttl[j] < ttl[i] {
        let (a, b) = (ahead_of(renewable, ttl, j), ahead_of(renewable, ttl, i));
        assert forall|k: int| 0 <= k < a.len() && #[trigger] a[k] implies b[k] by {}
        lemma_count_implied(a, b);
    }
}

/// A renewal adds twenty ticks of life, up to the goal, and others keep theirs. With a lane
/// to spare for everyone, everyone in need is renewed.
pub proof fn a_renewal_adds_twenty_ticks(
    renewable: Seq<bool>,
    ttl: Seq<u32>,
    lanes: nat,
    goal: u32,
    i: int,
)
    requires
        renewable.len() == ttl.len(),
        0 <= i < ttl.len(),
        goal <= u32::MAX - 20,
    ensures
        ({
            let r = renewed(renewable, ttl, lanes, goal);
            &&& r.len() == ttl.len()
            &&& !renewable[i] ==> r[i] == ttl[i]
            &&& renewable[i] && ttl[i] + 20 <= goal && lanes > ttl.len() ==> r[i] == ttl[i] + 20
            &&& renewable[i] && ttl[i] < goal < ttl[i] + 20 && lanes > ttl.len() ==> r[i] == goal
            &&& lanes == 0 ==> r[i] == ttl[i]
        }),
{
    lemma_count_bound(ahead_of(renewable, ttl, i));
}

/// A member can be renewed while it is present and short of life: held anywhere, at home
/// before the departure, and after it at a rally that has a spawn.
pub proof fn members_are_renewed_where_they_stand(v: ExtendedView, i: int)
    requires
        0 <= i < v.colony.filled.len(),
    ensures
        ({
            let needs = v.colony.filled[i] && v.ttl[i] < v.rules.renew_target_ttl;
            let at_home = v.pos[i] == v.plan.homes@[i];
            let at_rally = v.pos[i].tiles_to(v.rally) <= v.rules.gather_radius;
            let r = v.renewables()[i];
            &&& !needs ==> !r
            &&& needs && v.held[i] ==> r
            &&& needs && !v.held[i] && !v.departed ==> (r <==> at_home)
            &&& needs && !v.held[i] && v.departed && v.plan.rally_spawn ==> (r <==> at_rally)
            &&& needs && !v.held[i] && v.departed && !v.plan.rally_spawn ==> !r
        }),
{
}

/// Without renewal in transit nobody's life is lengthened by a rest.
pub proof fn rest_renews_only_where_planned(v: ExtendedView, i: int)
    requires
        0 <= i < v.ttl.len(),
        v.ttl.len() == v.colony.filled.len(),
    ensures
        !v.plan.renew_in_transit ==> v.rested().0.ttl == v.ttl,
        v.rested().1 is Reconcile,
        v.rested().0.pos == v.pos,
        v.rested().0.colony == v.colony,
        v.plan.renew_in_transit && !v.renewables()[i] ==> v.rested().0.ttl[i] == v.ttl[i],
{
}

/// What a report says of the squad, fact by fact.
pub proof fn extended_report_tells_the_facts(v: ExtendedView, a: ExtendedAnswer)
    requires
        a == ExtendedAnswer::Gated(false),
        v.answered(a).1 is Reconcile,
    ensures
        ({
            let w = v.answered(a).0;
            let s = v.answered(a).1->Reconcile_0;
            let away = v.colony.completing.len() > 0 || v.colony.syncing.len() > 0;
            &&& !s.objective_gone && !s.duplicate && !s.wiped && !s.has_focus && !s.declaiming
            &&& !s.reassign_available && !s.holding_station && !s.retreated_from_contact
            &&& !s.is_defend && !s.engaged_once
            &&& s.deadline_lapsed <==> v.tick >= v.deadline
            &&& s.in_target_room == w.in_room
            &&& s.has_members <==> v.present > 0 || away
            &&& s.forming <==> (v.present > 0 || away) && !w.departed && v.present
                < v.colony.filled.len()
            &&& s.forming_progress <==> s.forming && v.present > v.prev_present
            &&& s.forming_in_flight <==> s.forming && v.in_flight
            &&& v.tick >= v.gen_start ==> (s.forming_budget_remaining <==> v.tick < v.gen_start
                + 3000)
            &&& v.tick >= v.travel_start ==> (s.travel_budget_remaining <==> v.tick
                < v.travel_start + 1000)
            &&& s.traveling == w.traveling
            &&& s.travel_progress == w.progress
        }),
{
}

/// A squad that gives up at home is fielded anew with a fresh lease of four hundred ticks:
/// everyone at home, nobody gathered, the banks kept. One that gives up on its way is over.
pub proof fn extended_giving_up(v: ExtendedView, withdraw: bool, mark: bool)
    requires
        v.tick + 1 < v.budget,
        v.budget <= u32::MAX - 400,
        v.generation < u32::MAX,
    ensures
        ({
            let (w, ask) = v.reconciled(
                ReconcileAction::Retire { reason: RetireReason::GaveUp, withdraw, mark_unwinnable: mark },
            );
            &&& !v.departed ==> {
                &&& w.generation == v.generation + 1
                &&& w.tick == v.tick + 1
                &&& w.deadline == v.tick + 400
                &&& w.gen_start == v.tick
                &&& !w.departed && !w.gathered
                &&& w.prev_present == 0
                &&& w.colony.avail == v.colony.avail
                &&& w.plan == v.plan
                &&& ask is FieldCheck
            }
            &&& v.departed && v.oscillations == 0 ==> ask == ExtendedAsk::Finished(
                ChurnOutcome::LapsedInTravel { generations: v.generation },
            )
            &&& v.departed && v.oscillations > 0 ==> ask == ExtendedAsk::Finished(
                ChurnOutcome::OscillatedNeverGathered {
                    generations: v.generation,
                    max_gathered: v.max_gathered,
                },
            )
        }),
{
}

/// Any other retirement ends the run as one that never deployed.
pub proof fn extended_retired(v: ExtendedView, action: ReconcileAction)
    requires
        action is Retire,
        action->reason != RetireReason::GaveUp,
    ensures
        v.reconciled(action).1 == ExtendedAsk::Finished(
            ChurnOutcome::ChurnedNeverDeployed {
                generations: v.generation,
                max_present: v.max_present,
            },
        ),
{
}

/// A kept squad goes on: at home its open slots are fielded, away the next tick opens. Only
/// a refreshed lease moves the deadline, to four hundred ticks from now.
pub proof fn extended_kept_squad_goes_on(v: ExtendedView, refresh: bool)
    requires
        v.tick + 1 < v.budget,
        v.budget <= u32::MAX - 400,
    ensures
        ({
            let action = if refresh {
                ReconcileAction::KeepRefreshLease
            } else {
                ReconcileAction::Keep
            };
            let (w, ask) = v.reconciled(action);
            &&& refresh ==> w.deadline == v.tick + 400
            &&& !refresh ==> w.deadline == v.deadline
            &&& w.generation == v.generation
            &&& w.departed == v.departed
            &&& w.gathered == v.gathered
            &&& w.prev_present == v.present
            &&& !v.departed ==> ask == (ExtendedAsk::FieldSpawn { filled: v.colony.filled })
                && w.tick == v.tick
            &&& v.departed ==> ask is FieldCheck && w.tick == v.tick + 1
        }),
{
}

/// A run whose time is up at home churned; under way it lapsed, or came and went.
pub proof fn extended_time_up(v: ExtendedView)
    requires
        v.tick >= v.budget,
    ensures
        !v.departed ==> v.opened().1 == ExtendedAsk::Finished(
            ChurnOutcome::ChurnedNeverDeployed {
                generations: v.generation,
                max_present: v.max_present,
            },
        ),
        v.departed && v.oscillations == 0 ==> v.opened().1 == ExtendedAsk::Finished(
            ChurnOutcome::LapsedInTravel { generations: v.generation },
        ),
        v.departed && v.oscillations > 0 ==> v.opened().1 == ExtendedAsk::Finished(
            ChurnOutcome::OscillatedNeverGathered {
                generations: v.generation,
                max_gathered: v.max_gathered,
            },
        ),
{
}

/// A new tick counts the members that are there, keeps the most that ever were, and starts
/// from a clean report.
pub proof fn extended_tick_counts_the_members(v: ExtendedView)
    requires
        v.tick < v.budget,
        v.colony.filled.len() <= usize::MAX,
    ensures
        ({
            let (w, ask) = v.opened();
            &&& ask == (ExtendedAsk::FieldCheck { filled: w.colony.filled })
            &&& w.present == count_true(w.colony.filled)
            &&& w.max_present >= w.present
            &&& w.max_present >= v.max_present
            &&& w.max_present == w.present || w.max_present == v.max_present
            &&& !w.traveling && !w.progress && !w.in_room
            &&& w.tick == v.tick
            &&& w.departed == v.departed
            &&& w.deadline == v.deadline
            &&& w.generation == v.generation
        }),
{
    crate::colony::lemma_count_bound(v.opened().0.colony.filled);
}

/// Once the slots to spawn are known, the first idle lane is asked to run, with what its home
/// has banked; and after a lane that spawned nothing the next one is.
pub proof fn idle_lanes_are_asked_in_turn(
    v: ExtendedView,
    combat: Seq<QueuedSpawn>,
    reply: LaneReply,
    h: int,
)
    requires
        0 <= h < v.colony.homes.len() <= usize::MAX,
        v.colony.avail.len() == v.colony.homes.len(),
        v.colony.busy_until.len() == v.colony.homes.len(),
        v.tick >= v.colony.busy_until[h],
        reply.spawned@.len() == 0,
    ensures
        (forall|k: int| 0 <= k < h ==> v.tick < #[trigger] v.colony.busy_until[k]) ==> {
            &&& v.field_given(combat).1 matches ExtendedAsk::RunLane { home, energy, capacity, .. } && {
                &&& home == h
                &&& energy == banked(v.colony.avail[h], v.colony.homes[h])
                &&& capacity == v.colony.homes[h].energy_capacity
            }
            &&& v.field_given(combat).0.combat == combat
            &&& v.field_given(combat).0.lane == h
        },
        h == v.lane + 1 ==> (v.lane_done(reply).1 matches ExtendedAsk::RunLane { home, .. } && home == h),
{
    scan_stops_at_the_first_free_lane(v.colony, v.tick, 0, h);
    let (_, at) = v.colony.scanned(v.tick, 0);
    if forall|k: int| 0 <= k < h ==> v.tick < #[trigger] v.colony.busy_until[k] {
        assert(at == h);
    }
    if h == v.lane + 1 {
        scan_stops_at_the_first_free_lane(v.colony, v.tick, h, h);
    }
}

/// A run starts at tick 0 with nobody present, everyone at home, the rally at the target, no
/// member left behind and 400 ticks to commit.
pub proof fn an_extended_run_starts_at_home(
    s: ColonyFormingScenario,
    plan: ExtendedTravel,
    rules: RallyRules,
    i: int,
)
    requires
        0 <= i < s.slots,
    ensures
        ({
            let v = started(s, plan, rules);
            &&& v.tick == 0 && v.generation == 0 && v.present == 0 && v.prev_present == 0
            &&& v.max_present == 0 && v.max_gathered == 0 && v.oscillations == 0
            &&& v.gen_start == v.tick && v.travel_start == v.tick && v.lane == 0
            &&& v.deadline == v.tick + 400
            &&& v.budget == s.budget_ticks && v.member_ttl == s.member_ttl
            &&& v.pos == plan.homes@ && v.rally == plan.target
            &&& !v.departed && !v.gathered && !v.prev_gathered && !v.in_flight && !v.traveling
            &&& !v.progress && !v.in_room && v.prev_min is None && v.combat.len() == 0
            &&& v.prev_dist[i] is None && v.streak[i] == 0 && v.ttl[i] == 0
            &&& !v.excluded[i] && !v.held[i]
        }),
{
}

} // verus!
