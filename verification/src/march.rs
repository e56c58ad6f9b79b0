//! One squad on the room grid: it forms at home, crosses one room per tick, and
//! ends up in its target's room.

use crate::objective_queue::V1Room;
use crate::position::{axis_max, grid_dist, sign_of, stepped_axis};
use vstd::prelude::*;

verus! {

/// Where a squad stands.
#[derive(Clone, Copy, Debug, PartialEq, Eq, Structural)]
pub enum V1Phase {
    Forming,
    Traveling,
    InRoom,
}

/// A squad on the grid.
#[derive(Clone, Copy, Debug)]
pub struct March {
    pub phase: V1Phase,
    pub pos: V1Room,
    pub form_done_at: u32,
    pub travel_start: u32,
}

/// A squad after a tick, and what it did in it.
#[derive(Clone, Copy, Debug)]
pub struct MarchStep {
    pub march: March,
    pub traveling: bool,
    pub progress: bool,
    pub in_room: bool,
}

/// Chebyshev distance between two rooms.
pub open spec fn rooms_between(a: V1Room, b: V1Room) -> int {
    grid_dist(a.0 as int, a.1 as int, b.0 as int, b.1 as int)
}

/// The room one step from `from` toward `to`.
pub open spec fn room_toward(from: V1Room, to: V1Room) -> V1Room {
    ((from.0 + sign_of(to.0 - from.0)) as i32, (from.1 + sign_of(to.1 - from.1)) as i32)
}

/// One tick of a squad whose objective is at `target`. Without an objective it
/// stands still.
pub open spec fn marched(m: March, target: Option<V1Room>, tick: u32) -> MarchStep {
    let still = MarchStep { march: m, traveling: false, progress: false, in_room: false };
    match target {
        None => still,
        Some(t) => match m.phase {
            V1Phase::Forming => if tick >= m.form_done_at {
                MarchStep {
                    march: March {
                        phase: if m.pos == t {
                            V1Phase::InRoom
                        } else {
                            V1Phase::Traveling
                        },
                        travel_start: tick,
                        ..m
                    },
                    ..still
                }
            } else {
                still
            },
            V1Phase::Traveling => {
                let pos = room_toward(m.pos, t);
                MarchStep {
                    march: March {
                        pos,
                        phase: if pos == t {
                            V1Phase::InRoom
                        } else {
                            V1Phase::Traveling
                        },
                        ..m
                    },
                    traveling: true,
                    progress: rooms_between(pos, t) < rooms_between(m.pos, t),
                    in_room: false,
                }
            },
            V1Phase::InRoom => MarchStep { in_room: true, ..still },
        },
    }
}

/// Still assembling at home.
pub open spec fn is_forming(m: March, tick: u32) -> bool {
    m.phase == V1Phase::Forming && tick < m.form_done_at
}

/// Chebyshev distance between two rooms.
pub fn v1_dist(a: V1Room, b: V1Room) -> (r: u32)
    ensures
        r == rooms_between(a, b),
{
    axis_max(a.0, a.1, b.0, b.1)
}

/// The room one step from `from` toward `to`.
pub fn room_step(from: V1Room, to: V1Room) -> (r: V1Room)
    ensures
        r == room_toward(from, to),
{
    (stepped_axis(from.0, to.0), stepped_axis(from.1, to.1))
}

impl March {
    /// One tick toward the objective's room.
    pub fn advance(&self, target: Option<V1Room>, tick: u32) -> (r: MarchStep)
        ensures
            r == marched(*self, target, tick),
    {
        let mut m: March = *self;
        let mut traveling: bool = false;
        let mut progress: bool = false;
        let mut in_room: bool = false;
        if let Some(t) = target {
            match self.phase {
                V1Phase::Forming => {
                    if tick >= self.form_done_at {
                        m.phase = if self.pos.0 == t.0 && self.pos.1 == t.1 {
                            V1Phase::InRoom
                        } else {
                            V1Phase::Traveling
                        };
                        m.travel_start = tick;
                    }
                },
                V1Phase::Traveling => {
                    traveling = true;
                    let before: u32 = v1_dist(self.pos, t);
                    m.pos = room_step(self.pos, t);
                    progress = v1_dist(m.pos, t) < before;
                    if m.pos.0 == t.0 && m.pos.1 == t.1 {
                        m.phase = V1Phase::InRoom;
                    }
                },
                V1Phase::InRoom => {
                    in_room = true;
                },
            }
        }
        MarchStep { march: m, traveling, progress, in_room }
    }

    /// Still assembling at home.
    pub fn forming(&self, tick: u32) -> (r: bool)
        ensures
            r == is_forming(*self, tick),
    {
        matches!(self.phase, V1Phase::Forming) && tick < self.form_done_at
    }
}

/// A defender in its room without a focus holds its station.
pub fn is_defend_holding(in_target_room: bool, has_focus: bool) -> (r: bool)
    ensures
        r == (in_target_room && !has_focus),
{
    in_target_room && !has_focus
}

/// Every tick of travel brings the squad closer by exactly one room, so a squad
/// that keeps its objective arrives after as many ticks as there are rooms.
pub proof fn travel_closes_one_room_per_tick(m: March, t: V1Room, tick: u32)
    requires
        m.phase == V1Phase::Traveling,
        m.pos != t,
    ensures
        rooms_between(marched(m, Some(t), tick).march.pos, t) == rooms_between(m.pos, t) - 1,
        marched(m, Some(t), tick).progress,
        marched(m, Some(t), tick).march.phase == V1Phase::InRoom <==> rooms_between(m.pos, t) == 1,
{
}

/// A squad forms until its time, then sets off, or is in the room already. Without an
/// objective it stands, and in the room it says so.
pub proof fn a_squad_moves_by_its_stage(m: March, t: V1Room, tick: u32)
    ensures
        marched(m, None, tick).march == m,
        !marched(m, None, tick).in_room && !marched(m, None, tick).traveling,
        m.phase is Forming && tick < m.form_done_at ==> marched(m, Some(t), tick).march == m
            && !marched(m, Some(t), tick).traveling && !marched(m, Some(t), tick).in_room
            && is_forming(m, tick),
        m.phase is Forming && tick >= m.form_done_at ==> ({
            let s = marched(m, Some(t), tick);
            &&& s.march.travel_start == tick
            &&& s.march.pos == m.pos
            &&& m.pos == t ==> s.march.phase is InRoom
            &&& m.pos != t ==> s.march.phase is Traveling
            &&& !s.traveling && !s.in_room && !s.progress
            &&& !is_forming(m, tick)
        }),
        m.phase is Traveling ==> marched(m, Some(t), tick).traveling && !marched(
            m,
            Some(t),
            tick,
        ).in_room && marched(m, Some(t), tick).march.travel_start == m.travel_start,
        m.phase is InRoom ==> marched(m, Some(t), tick).in_room && marched(m, Some(t), tick).march
            == m && !marched(m, Some(t), tick).traveling,
{
}

/// A step changes each coordinate by at most one, toward the goal.
pub proof fn a_room_step_is_toward_the_goal(from: V1Room, to: V1Room)
    ensures
        ({
            let n = room_toward(from, to);
            &&& from.0 < to.0 ==> n.0 == from.0 + 1
            &&& from.0 > to.0 ==> n.0 == from.0 - 1
            &&& from.0 == to.0 ==> n.0 == from.0
            &&& from.1 < to.1 ==> n.1 == from.1 + 1
            &&& from.1 > to.1 ==> n.1 == from.1 - 1
            &&& from.1 == to.1 ==> n.1 == from.1
        }),
        rooms_between(from, to) == rooms_between(to, from),
        rooms_between(from, to) == 0 <==> from == to,
        rooms_between(from, to) >= from.0 - to.0,
        rooms_between(from, to) >= from.1 - to.1,
{
}

} // verus!
