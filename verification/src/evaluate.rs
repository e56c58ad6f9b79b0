//! When an evaluation stops, and how its ticks are counted.

use crate::position::WPos;
use crate::world::{CombatWorld, PlayerId};
use vstd::prelude::*;

verus! {

/// Why an evaluation stopped.
#[derive(Clone, Copy, Debug, PartialEq, Eq, Structural)]
pub enum StopReason {
    /// Every target structure is destroyed.
    ObjectivesComplete,
    /// The controller has no owner any more.
    ControllerNeutralized,
    /// The side has no living creeps left.
    SideWiped(PlayerId),
    /// The tick budget ran out.
    Timeout,
}

/// A stop condition, looked at before each tick.
pub trait RunUntil {
    /// The reason to stop in this world, if there is one.
    spec fn reason(&self, world: CombatWorld, tick: u32) -> Option<StopReason>;

    fn check(&self, world: &CombatWorld, tick: u32) -> (r: Option<StopReason>)
        ensures
            r == self.reason(*world, tick),
    ;
}

/// Stop when every listed structure or tower is destroyed.
#[derive(Debug)]
pub struct ObjectivesDestroyed(pub Vec<u32>);

/// Stop when the side has no living creeps.
#[derive(Clone, Copy, Debug)]
pub struct SideWiped(pub PlayerId);

/// Stop when the controller at the tile has no owner.
#[derive(Clone, Copy, Debug)]
pub struct ControllerNeutralized(pub WPos);

/// One condition of several.
#[derive(Debug)]
pub enum Condition {
    Destroyed(ObjectivesDestroyed),
    Wiped(SideWiped),
    Neutralized(ControllerNeutralized),
}

/// Stop when any condition holds; the first in order gives the reason.
#[derive(Debug)]
pub struct AnyOf(pub Vec<Condition>);

pub open spec fn all_down(world: CombatWorld, ids: Seq<u32>) -> bool {
    forall|i: int| 0 <= i < ids.len() ==> !world.target_up(#[trigger] ids[i])
}

impl RunUntil for ObjectivesDestroyed {
    open spec fn reason(&self, world: CombatWorld, tick: u32) -> Option<StopReason> {
        if all_down(world, self.0@) {
            Some(StopReason::ObjectivesComplete)
        } else {
            None
        }
    }

    fn check(&self, world: &CombatWorld, _tick: u32) -> (r: Option<StopReason>) {
        let mut i: usize = 0;
        while i < self.0.len()
            invariant
                i <= self.0@.len(),
                forall|k: int| 0 <= k < i ==> !world.target_up(#[trigger] self.0@[k]),
            decreases self.0.len() - i,
        {
            if world.is_target_up(self.0[i]) {
                assert(world.target_up(self.0@[i as int]));
                return None;
            }
            i = i + 1;
        }
        Some(StopReason::ObjectivesComplete)
    }
}

impl RunUntil for SideWiped {
    open spec fn reason(&self, world: CombatWorld, tick: u32) -> Option<StopReason> {
        if world.stands(self.0) {
            None
        } else {
            Some(StopReason::SideWiped(self.0))
        }
    }

    fn check(&self, world: &CombatWorld, _tick: u32) -> (r: Option<StopReason>) {
        if world.side_stands(self.0) {
            None
        } else {
            Some(StopReason::SideWiped(self.0))
        }
    }
}

impl RunUntil for ControllerNeutralized {
    open spec fn reason(&self, world: CombatWorld, tick: u32) -> Option<StopReason> {
        if world.controlled(self.0) {
            None
        } else {
            Some(StopReason::ControllerNeutralized)
        }
    }

    fn check(&self, world: &CombatWorld, _tick: u32) -> (r: Option<StopReason>) {
        if world.is_controlled(self.0) {
            None
        } else {
            Some(StopReason::ControllerNeutralized)
        }
    }
}

impl RunUntil for Condition {
    open spec fn reason(&self, world: CombatWorld, tick: u32) -> Option<StopReason> {
        match self {
            Condition::Destroyed(c) => c.reason(world, tick),
            Condition::Wiped(c) => c.reason(world, tick),
            Condition::Neutralized(c) => c.reason(world, tick),
        }
    }

    fn check(&self, world: &CombatWorld, tick: u32) -> (r: Option<StopReason>) {
        match self {
            Condition::Destroyed(c) => c.check(world, tick),
            Condition::Wiped(c) => c.check(world, tick),
            Condition::Neutralized(c) => c.check(world, tick),
        }
    }
}

/// The reason that the first condition in order gives.
pub open spec fn first_reason(
    conds: Seq<Condition>,
    world: CombatWorld,
    tick: u32,
) -> Option<StopReason>
    decreases conds.len(),
{
    if conds.len() == 0 {
        None
    } else {
        match first_reason(conds.drop_last(), world, tick) {
            Some(r) => Some(r),
            None => conds.last().reason(world, tick),
        }
    }
}

impl RunUntil for AnyOf {
    open spec fn reason(&self, world: CombatWorld, tick: u32) -> Option<StopReason> {
        first_reason(self.0@, world, tick)
    }

    fn check(&self, world: &CombatWorld, tick: u32) -> (r: Option<StopReason>) {
        let mut i: usize = 0;
        assert(self.0@.take(0) =~= Seq::<Condition>::empty());
        while i < self.0.len()
            invariant
                i <= self.0@.len(),
                first_reason(self.0@.take(i as int), *world, tick) is None,
            decreases self.0.len() - i,
        {
            assert(self.0@.take(i as int + 1).drop_last() =~= self.0@.take(i as int));
            let c: Option<StopReason> = self.0[i].check(world, tick);
            if c.is_some() {
                proof {
                    first_reason_wins(self.0@, i as int, *world, tick);
                }
                return c;
            }
            i = i + 1;
        }
        assert(self.0@.take(i as int) =~= self.0@);
        None
    }
}

/// The first condition that holds gives the reason, whatever stands behind it.
pub proof fn first_reason_wins(conds: Seq<Condition>, k: int, world: CombatWorld, tick: u32)
    requires
        0 <= k < conds.len(),
        first_reason(conds.take(k), world, tick) is None,
        conds[k].reason(world, tick) is Some,
    ensures
        first_reason(conds, world, tick) == conds[k].reason(world, tick),
    decreases conds.len(),
{
    if k == conds.len() - 1 {
        assert(conds.drop_last() =~= conds.take(k));
    } else {
        assert(conds.drop_last().take(k) =~= conds.take(k));
        first_reason_wins(conds.drop_last(), k, world, tick);
    }
}

/// What an evaluation does next: resolve a tick, or stop for a reason.
#[derive(Clone, Copy, Debug, PartialEq, Eq, Structural)]
pub enum EvalStep {
    Resolve,
    Stop { ticks: u32, reason: StopReason },
}

/// What an evaluation came to: the world as it was left, and when and why it stopped.
#[derive(Clone, Debug)]
pub struct EvalOutcome {
    pub world: CombatWorld,
    pub ticks: u32,
    pub stop: StopReason,
}

/// An evaluation in progress.
#[derive(Clone, Copy, Debug)]
pub struct Evaluation {
    pub ticks: u32,
    pub max_ticks: u32,
}

impl Evaluation {
    pub open spec fn wf(self) -> bool {
        self.ticks <= self.max_ticks
    }

    /// What comes next, given the reason to stop that the condition sees.
    pub open spec fn step_for(self, reason: Option<StopReason>) -> EvalStep {
        match reason {
            Some(reason) => EvalStep::Stop { ticks: self.ticks, reason },
            None => if self.ticks >= self.max_ticks {
                EvalStep::Stop { ticks: self.ticks, reason: StopReason::Timeout }
            } else {
                EvalStep::Resolve
            },
        }
    }

    /// An evaluation of at most `max_ticks` ticks.
    pub fn start(max_ticks: u32) -> (r: Evaluation)
        ensures
            r.ticks == 0,
            r.max_ticks == max_ticks,
            r.wf(),
    {
        Evaluation { ticks: 0, max_ticks }
    }

    /// Looks at the world before a tick: the condition comes first, the budget
    /// second. A tick that is to be resolved is counted.
    pub fn next<C: RunUntil>(&mut self, until: &C, world: &CombatWorld) -> (r: EvalStep)
        requires
            old(self).wf(),
        ensures
            r == old(self).step_for(until.reason(*world, old(self).ticks)),
            final(self).wf(),
            final(self).max_ticks == old(self).max_ticks,
            final(self).ticks == old(self).ticks + if r is Resolve {
                1int
            } else {
                0int
            },
    {
        if let Some(reason) = until.check(world, self.ticks) {
            return EvalStep::Stop { ticks: self.ticks, reason };
        }
        if self.ticks >= self.max_ticks {
            return EvalStep::Stop { ticks: self.ticks, reason: StopReason::Timeout };
        }
        self.ticks = self.ticks + 1;
        EvalStep::Resolve
    }
}

/// An evaluation stops within its budget, and says so only when it ran out.
pub proof fn evaluation_keeps_its_budget(e: Evaluation, reason: Option<StopReason>)
    requires
        e.wf(),
    ensures
        e.step_for(reason) matches EvalStep::Stop { ticks, reason: why } ==> ticks <= e.max_ticks
            && (why == StopReason::Timeout && reason is None ==> ticks == e.max_ticks),
        e.ticks == e.max_ticks ==> e.step_for(reason) is Stop,
{
}

/// Every condition is looked at in order, and the budget after them all: while a condition
/// gives a reason that one is told, even on the last tick; without one the run goes on until
/// its ticks are used up.
pub proof fn conditions_come_before_the_budget(e: Evaluation, why: StopReason)
    ensures
        e.step_for(Some(why)) == (EvalStep::Stop { ticks: e.ticks, reason: why }),
        e.ticks < e.max_ticks ==> e.step_for(None) == EvalStep::Resolve,
        e.ticks == e.max_ticks ==> e.step_for(None) == (EvalStep::Stop {
            ticks: e.ticks,
            reason: StopReason::Timeout,
        }),
{
}

/// Objectives are complete exactly when no listed target is up; one that still stands keeps
/// the run going, and so does a living creep or an owned controller.
pub proof fn reasons_are_seen_in_the_world(
    d: ObjectivesDestroyed,
    s: SideWiped,
    c: ControllerNeutralized,
    w: CombatWorld,
    tick: u32,
    i: int,
)
    ensures
        0 <= i < d.0@.len() && w.target_up(d.0@[i]) ==> d.reason(w, tick) is None,
        (forall|k: int| 0 <= k < d.0@.len() ==> !w.target_up(#[trigger] d.0@[k])) ==> d.reason(
            w,
            tick,
        ) == Some(StopReason::ObjectivesComplete),
        w.stands(s.0) ==> s.reason(w, tick) is None,
        !w.stands(s.0) ==> s.reason(w, tick) == Some(StopReason::SideWiped(s.0)),
        w.controlled(c.0) ==> c.reason(w, tick) is None,
        !w.controlled(c.0) ==> c.reason(w, tick) == Some(StopReason::ControllerNeutralized),
        Condition::Destroyed(d).reason(w, tick) == d.reason(w, tick),
        Condition::Wiped(s).reason(w, tick) == s.reason(w, tick),
        Condition::Neutralized(c).reason(w, tick) == c.reason(w, tick),
{
}

/// Where no condition gives a reason there is none, and a reason is always some condition's.
pub proof fn a_reason_is_some_conditions(conds: Seq<Condition>, world: CombatWorld, tick: u32)
    ensures
        first_reason(conds, world, tick) is Some ==> exists|k: int|
            0 <= k < conds.len() && (#[trigger] conds[k]).reason(world, tick) == first_reason(
                conds,
                world,
                tick,
            ),
        first_reason(conds, world, tick) is None ==> forall|k: int|
            0 <= k < conds.len() ==> (#[trigger] conds[k]).reason(world, tick) is None,
    decreases conds.len(),
{
    if conds.len() > 0 {
        let d = conds.drop_last();
        let n = conds.len() - 1;
        a_reason_is_some_conditions(d, world, tick);
        assert(conds[n] == conds.last());
        if first_reason(d, world, tick) is Some {
            let k = choose|k: int|
                0 <= k < d.len() && (#[trigger] d[k]).reason(world, tick) == first_reason(
                    d,
                    world,
                    tick,
                );
            assert(conds[k] == d[k]);
        } else {
            assert forall|k: int|
                0 <= k < conds.len() && first_reason(conds, world, tick) is None implies (
            #[trigger] conds[k]).reason(world, tick) is None by {
                if k < n {
                    assert(conds[k] == d[k]);
                }
            }
        }
    }
}

} // verus!
