//! The commitment lease: what a squad reports when it is reconciled, what the
//! reconciliation may answer, and how a lifecycle can end.

use vstd::prelude::*;

verus! {

/// Ticks a fielded squad is committed to its objective before the lease lapses.
pub const COMMITMENT_BUDGET: u32 = 400;

/// Bound on how long forming may keep refreshing the lease.
pub const MAX_FORMING_BUDGET: u32 = 3000;

/// Bound on how long travel may keep refreshing the lease.
pub const MAX_TRAVEL_BUDGET: u32 = 1000;

/// Consecutive blocked ticks after which a member is left out of the gathering.
pub const SOLO_TRAVEL_STALL_WINDOW: u32 = 100;

/// The facts on which a squad's lease is judged.
#[derive(Clone, Copy, Debug, PartialEq, Eq, Structural)]
pub struct ReconcileSnapshot {
    pub objective_gone: bool,
    pub duplicate: bool,
    pub is_defend: bool,
    pub deadline_lapsed: bool,
    pub wiped: bool,
    pub has_focus: bool,
    pub engaged_once: bool,
    pub in_target_room: bool,
    pub has_members: bool,
    pub forming: bool,
    pub forming_progress: bool,
    pub forming_in_flight: bool,
    pub forming_budget_remaining: bool,
    pub traveling: bool,
    pub travel_progress: bool,
    pub travel_budget_remaining: bool,
    pub holding_station: bool,
    pub declaiming: bool,
    pub reassign_available: bool,
    pub retreated_from_contact: bool,
}

/// Why a squad is retired.
#[derive(Clone, Copy, Debug, PartialEq, Eq, Structural)]
pub enum RetireReason {
    GaveUp,
    Resolved,
    ObjectiveGone,
    Other,
}

/// The judgement on a snapshot.
#[derive(Clone, Copy, Debug, PartialEq, Eq, Structural)]
pub enum ReconcileAction {
    Retire { reason: RetireReason, withdraw: bool, mark_unwinnable: bool },
    Reassign { withdraw_old: bool },
    KeepRefreshLease,
    Keep,
}

/// How a squad's lifecycle ended.
#[derive(Clone, Copy, Debug, PartialEq, Eq, Structural)]
pub enum ChurnOutcome {
    /// The squad reached its target and engaged.
    DeployedAndEngaged { generations: u32, engage_tick: u32 },
    /// The roster never left home.
    ChurnedNeverDeployed { generations: u32, max_present: usize },
    /// The lease lapsed between departure and arrival.
    LapsedInTravel { generations: u32 },
    /// The lease lapsed in the target room without an engagement.
    LapsedOnArrival { generations: u32 },
    /// The engagement was latched while still under way, which froze the squad.
    LatchedEnRoute { generations: u32 },
    /// The gathering came and went and the assault was never committed.
    OscillatedNeverGathered { generations: u32, max_gathered: usize },
    /// A defender held its room to the end of the budget.
    Garrisoned { generations: u32 },
    /// The squad was rebound in place to another objective.
    Reassigned { from_gen: u32, reassignments: u32, engage_tick: u32 },
    /// A lost room was taken for a cleared one again and again.
    LapsedOnVacuousCommit { generations: u32 },
    /// A room that could not be won was given up with a backoff.
    AbandonedOnContact { generations: u32 },
}

/// Ticks gone by since `start`, none before it.
pub open spec fn elapsed(tick: u32, start: u32) -> int {
    if tick >= start {
        tick - start
    } else {
        0
    }
}

pub fn ticks_since(tick: u32, start: u32) -> (r: u32)
    ensures
        r == elapsed(tick, start),
{
    if tick >= start {
        tick - start
    } else {
        0
    }
}

/// The clock of a lease runs forward from its start, one tick a tick, and stands before it.
pub proof fn elapsed_counts_ticks(tick: u32, start: u32)
    ensures
        elapsed(start, start) == 0,
        tick <= start ==> elapsed(tick, start) == 0,
        tick >= start && tick < u32::MAX ==> elapsed((tick + 1) as u32, start) == elapsed(
            tick,
            start,
        ) + 1,
{
}

/// How long a squad is committed, may form, may travel, and may be blocked.
pub proof fn lease_terms()
    ensures
        COMMITMENT_BUDGET == 400,
        MAX_FORMING_BUDGET == 3000,
        MAX_TRAVEL_BUDGET == 1000,
        SOLO_TRAVEL_STALL_WINDOW == 100,
{
}

} // verus!
