//! From forming to the fight: how a lifecycle that forms a roster and engages with
//! it turns out.

use crate::colony::{best_capacity, best_capacity_is_the_best, best_capacity_of, Home};
use crate::evaluate::StopReason;
use crate::fielding::{AssaultMode, Fielded, PlanSummary};
use crate::forming::FormingOutcome;
use vstd::prelude::*;

verus! {

/// Ticks that an engagement may take.
pub const ENGAGE_BUDGET: u32 = 1500;

/// How a lifecycle turned out.
#[derive(Clone, Copy, Debug, PartialEq, Eq, Structural)]
pub enum LifecycleOutcome {
    /// The roster formed and destroyed the core.
    Killed { form_ticks: u32, engage_ticks: u32 },
    /// The core outlasted the engagement.
    Stalled { form_ticks: u32, engage_ticks: u32 },
    /// The roster was wiped.
    RosterWiped { form_ticks: u32, engage_ticks: u32 },
    /// The roster never formed.
    NeverFormed { filled: usize, of: usize },
    /// The roster formed but could not be put down.
    CouldNotField { form_ticks: u32 },
}

/// How an engagement ended.
#[derive(Clone, Copy, Debug, PartialEq, Eq, Structural)]
pub struct Engagement {
    pub stop: StopReason,
    pub ticks: u32,
}

/// The outcome of an engagement with a roster that took `form_ticks` to form.
pub open spec fn engaged_outcome(form_ticks: u32, e: Option<Engagement>) -> LifecycleOutcome {
    match e {
        None => LifecycleOutcome::CouldNotField { form_ticks },
        Some(e) => match e.stop {
            StopReason::ObjectivesComplete => LifecycleOutcome::Killed {
                form_ticks,
                engage_ticks: e.ticks,
            },
            StopReason::SideWiped(_) => LifecycleOutcome::RosterWiped {
                form_ticks,
                engage_ticks: e.ticks,
            },
            _ => LifecycleOutcome::Stalled { form_ticks, engage_ticks: e.ticks },
        },
    }
}

/// The step after forming: an end, or an engagement.
#[derive(Clone, Copy, Debug, PartialEq, Eq, Structural)]
pub enum AfterForming {
    Ended(LifecycleOutcome),
    Engage { form_ticks: u32 },
}

/// A roster that formed engages; one that did not is the end.
pub fn after_forming(f: FormingOutcome) -> (r: AfterForming)
    ensures
        r == match f {
            FormingOutcome::Completed { ticks } => AfterForming::Engage { form_ticks: ticks },
            FormingOutcome::Stalled { filled, of } => AfterForming::Ended(
                LifecycleOutcome::NeverFormed { filled, of },
            ),
        },
{
    match f {
        FormingOutcome::Completed { ticks } => AfterForming::Engage { form_ticks: ticks },
        FormingOutcome::Stalled { filled, of } => AfterForming::Ended(
            LifecycleOutcome::NeverFormed { filled, of },
        ),
    }
}

/// The outcome of an engagement; `None` where the roster could not be put down.
pub fn after_engagement(form_ticks: u32, e: Option<Engagement>) -> (r: LifecycleOutcome)
    ensures
        r == engaged_outcome(form_ticks, e),
{
    match e {
        None => LifecycleOutcome::CouldNotField { form_ticks },
        Some(e) => match e.stop {
            StopReason::ObjectivesComplete => LifecycleOutcome::Killed {
                form_ticks,
                engage_ticks: e.ticks,
            },
            StopReason::SideWiped(_) => LifecycleOutcome::RosterWiped {
                form_ticks,
                engage_ticks: e.ticks,
            },
            _ => LifecycleOutcome::Stalled { form_ticks, engage_ticks: e.ticks },
        },
    }
}

/// Only an engagement that destroyed the core counts as a kill.
pub proof fn a_kill_takes_the_core(form_ticks: u32, e: Option<Engagement>)
    ensures
        engaged_outcome(form_ticks, e) is Killed <==> e is Some && e->0.stop
            == StopReason::ObjectivesComplete,
{
}

/// The energy that members are built at: the best home's capacity, up to the cap.
pub fn build_energy(homes: &Vec<Home>, per_member_cap: u32) -> (r: u32)
    ensures
        ({
            let best = best_capacity_of(homes@);
            r == if best <= per_member_cap {
                best
            } else {
                per_member_cap
            }
        }),
        r <= per_member_cap,
        forall|i: int|
            0 <= i < homes@.len() ==> r >= (#[trigger] homes@[i]).energy_capacity || r
                == per_member_cap,
        r == per_member_cap || r == 0 || exists|i: int|
            0 <= i < homes@.len() && r == (#[trigger] homes@[i]).energy_capacity,
{
    proof {
        best_capacity_is_the_best(homes@);
    }
    let best: u32 = best_capacity(homes);
    if best <= per_member_cap {
        best
    } else {
        per_member_cap
    }
}

/// The force that a plan has formed: the assembled one under a breach or a drain that can
/// be won, else the ceiling.
pub open spec fn force_of(p: PlanSummary) -> Fielded {
    if p.winnable && p.mode != AssaultMode::Other && p.has_composition {
        Fielded::Sized
    } else {
        Fielded::Ceiling
    }
}

/// The force that a defended lifecycle forms. `has_composition` says whether one could be assembled.
pub fn roster_choice(p: PlanSummary) -> (r: Fielded)
    ensures
        r == force_of(p),
{
    if p.winnable && !matches!(p.mode, AssaultMode::Other) && p.has_composition {
        Fielded::Sized
    } else {
        Fielded::Ceiling
    }
}

/// Whether a plan is carried out by draining the towers first.
pub fn drains(p: PlanSummary) -> (r: bool)
    ensures
        r == (p.winnable && p.mode == AssaultMode::Drain),
        r ==> p.winnable && !(p.mode is Breach || p.mode is Other),
        p.winnable && p.mode is Drain ==> r,
{
    p.winnable && p.mode == AssaultMode::Drain
}

/// Each end of a fight has its own outcome, and each outcome tells both times.
pub proof fn each_end_has_its_outcome(form_ticks: u32, e: Engagement, who: u32)
    ensures
        engaged_outcome(form_ticks, None) == (LifecycleOutcome::CouldNotField { form_ticks }),
        e.stop == StopReason::SideWiped(who) ==> engaged_outcome(form_ticks, Some(e)) == (
        LifecycleOutcome::RosterWiped { form_ticks, engage_ticks: e.ticks }),
        e.stop == StopReason::Timeout || e.stop == StopReason::ControllerNeutralized
            ==> engaged_outcome(form_ticks, Some(e)) == (LifecycleOutcome::Stalled {
            form_ticks,
            engage_ticks: e.ticks,
        }),
        e.stop == StopReason::ObjectivesComplete ==> engaged_outcome(form_ticks, Some(e)) == (
        LifecycleOutcome::Killed { form_ticks, engage_ticks: e.ticks }),
{
}

/// Only a breach or a drain that is thought winnable and that a composition carries is fielded
/// as it was sized.
pub proof fn the_sized_force_is_fielded_when_it_can_win(p: PlanSummary)
    ensures
        !p.winnable ==> force_of(p) == Fielded::Ceiling,
        !p.has_composition ==> force_of(p) == Fielded::Ceiling,
        p.mode == AssaultMode::Other ==> force_of(p) == Fielded::Ceiling,
        p.winnable && p.has_composition && p.mode == AssaultMode::Breach ==> force_of(p)
            == Fielded::Sized,
        p.winnable && p.has_composition && p.mode == AssaultMode::Drain ==> force_of(p)
            == Fielded::Sized,
{
}

/// An engagement may take as long as a creep lives, 1500 ticks.
pub proof fn an_engagement_may_take_a_lifetime(ticks: int)
    ensures
        ticks <= ENGAGE_BUDGET <==> ticks <= 1500,
{
}

} // verus!
