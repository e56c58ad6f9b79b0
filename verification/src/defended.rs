//! A defended lifecycle: a force is planned for the core, formed under spawn contention,
//! and sent against it.
//!
//! [`DefendedRun`] is driven by questions. Each method takes the run and the answer to its
//! last question, and returns the run with the next one, until the run is finished.

use crate::colony::{
    best_capacity_of, homes_fit, reply_fits, ColonyFormingScenario, LaneReply, QueuedSpawn,
};
use crate::evaluate::StopReason;
use crate::fielding::{AssaultMode, Fielded, PlanSummary};
use crate::forming::{
    started, FormingAsk, FormingOutcome, FormingRequest, FormingRun, FormingView, RENEW_PER_TICK,
    RENEW_THRESHOLD,
};
use crate::lifecycle::{
    after_engagement, after_forming, build_energy, drains, engaged_outcome, force_of, roster_choice,
    AfterForming, Engagement, LifecycleOutcome,
};
use crate::lists::copied;
use vstd::prelude::*;

verus! {

/// What the run needs to know next.
#[derive(Clone, Debug)]
pub enum DefendedRequest {
    /// What is the plan against the core, with members built at this energy?
    Plan { member_energy: u32 },
    /// A question about forming the chosen force.
    Form { fielded: Fielded, ask: FormingRequest },
    /// How does the chosen force fare against the core?
    Engage { fielded: Fielded, drains: bool },
    Finished(LifecycleOutcome),
    /// The answer was to another question, and changed nothing.
    Unasked,
}

/// A request over sequences.
#[verifier::ext_equal]
pub enum DefendedAsk {
    Plan { member_energy: u32 },
    Form { fielded: Fielded, ask: FormingAsk },
    Engage { fielded: Fielded, drains: bool },
    Finished(LifecycleOutcome),
    Unasked,
}

impl View for DefendedRequest {
    type V = DefendedAsk;

    open spec fn view(&self) -> DefendedAsk {
        match *self {
            DefendedRequest::Plan { member_energy } => DefendedAsk::Plan { member_energy },
            DefendedRequest::Form { fielded, ask } => DefendedAsk::Form { fielded, ask: ask@ },
            DefendedRequest::Engage { fielded, drains } => DefendedAsk::Engage { fielded, drains },
            DefendedRequest::Finished(o) => DefendedAsk::Finished(o),
            DefendedRequest::Unasked => DefendedAsk::Unasked,
        }
    }
}

/// An answer, over sequences.
pub enum DefendedAnswer {
    Planned { plan: PlanSummary, sized_slots: usize, ceiling_slots: usize },
    Ready(bool),
    Field(Seq<QueuedSpawn>),
    Lane(LaneReply),
    Engaged(Option<Engagement>),
}

/// The state of a run.
#[verifier::ext_equal]
pub enum DefendedView {
    Planning(ColonyFormingScenario),
    Forming { run: FormingView, fielded: Fielded, drains: bool },
    Engaging { form_ticks: u32, fielded: Fielded, drains: bool },
    Ended,
}

/// The clock and the banks hold a run of the scenario.
pub open spec fn scenario_fits(s: ColonyFormingScenario) -> bool {
    &&& homes_fit(s.homes@)
    &&& s.budget_ticks + s.member_ttl <= u32::MAX
    &&& s.budget_ticks + RENEW_THRESHOLD + RENEW_PER_TICK <= u32::MAX
}

/// Where forming has got to: it asks on, or the force engages, or the run is over.
pub open spec fn formed_on(
    run: FormingView,
    ask: FormingAsk,
    fielded: Fielded,
    drains: bool,
) -> (DefendedView, DefendedAsk) {
    match ask {
        FormingAsk::Finished(FormingOutcome::Completed { ticks }) => (
            DefendedView::Engaging { form_ticks: ticks, fielded, drains },
            DefendedAsk::Engage { fielded, drains },
        ),
        FormingAsk::Finished(FormingOutcome::Stalled { filled, of }) => (
            DefendedView::Ended,
            DefendedAsk::Finished(LifecycleOutcome::NeverFormed { filled, of }),
        ),
        _ => (
            DefendedView::Forming { run, fielded, drains },
            DefendedAsk::Form { fielded, ask },
        ),
    }
}

impl DefendedView {
    pub open spec fn wf(self) -> bool {
        match self {
            DefendedView::Planning(s) => scenario_fits(s),
            DefendedView::Forming { run, .. } => run.wf() && run.tick < run.budget,
            _ => true,
        }
    }

    /// Where a lane is asked to run, it is one of the homes'.
    pub open spec fn asks_a_home(self, ask: DefendedAsk) -> bool {
        match (self, ask) {
            (
                DefendedView::Forming { run, .. },
                DefendedAsk::Form { ask: FormingAsk::RunLane { .. }, .. },
            ) => run.lane < run.colony.homes.len(),
            _ => true,
        }
    }

    /// A lane's answer is due, and this one keeps the clock and the bank.
    pub open spec fn takes(self, reply: LaneReply) -> bool {
        self matches DefendedView::Forming { run, .. } ==> {
            &&& run.lane < run.colony.homes.len()
            &&& reply_fits(reply, run.tick, run.colony.homes[run.lane as int].income)
        }
    }

    /// The run takes an answer.
    pub open spec fn answered(self, a: DefendedAnswer) -> (DefendedView, DefendedAsk) {
        match (self, a) {
            (
                DefendedView::Planning(s),
                DefendedAnswer::Planned { plan, sized_slots, ceiling_slots },
            ) => {
                let fielded = force_of(plan);
                let slots = if fielded == Fielded::Sized {
                    sized_slots
                } else {
                    ceiling_slots
                };
                let drains = plan.winnable && plan.mode == AssaultMode::Drain;
                let (v, ask) = started(ColonyFormingScenario { slots, ..s }).opened();
                formed_on(v, ask, fielded, drains)
            },
            (DefendedView::Forming { run, fielded, drains }, DefendedAnswer::Ready(ready)) => {
                let (v, ask) = run.ready_known(ready);
                formed_on(v, ask, fielded, drains)
            },
            (DefendedView::Forming { run, fielded, drains }, DefendedAnswer::Field(combat)) => {
                let (v, ask) = run.field_given(combat);
                formed_on(v, ask, fielded, drains)
            },
            (DefendedView::Forming { run, fielded, drains }, DefendedAnswer::Lane(reply)) => {
                let (v, ask) = run.lane_done(reply);
                formed_on(v, ask, fielded, drains)
            },
            (
                DefendedView::Engaging { form_ticks, .. },
                DefendedAnswer::Engaged(e),
            ) => (DefendedView::Ended, DefendedAsk::Finished(engaged_outcome(form_ticks, e))),
            _ => (self, DefendedAsk::Unasked),
        }
    }
}

/// The first question: the best home's capacity, up to the cap, is what a member costs.
pub open spec fn first_ask(s: ColonyFormingScenario) -> DefendedAsk {
    let best = best_capacity_of(s.homes@);
    DefendedAsk::Plan {
        member_energy: if best <= s.per_member_cap {
            best
        } else {
            s.per_member_cap
        },
    }
}

/// The run of a scenario after these answers.
pub open spec fn ran(s: ColonyFormingScenario, answers: Seq<DefendedAnswer>) -> (
    DefendedView,
    DefendedAsk,
)
    decreases answers.len(),
{
    if answers.len() == 0 {
        (DefendedView::Planning(s), first_ask(s))
    } else {
        ran(s, answers.drop_last()).0.answered(answers.last())
    }
}

/// Two scenarios that differ at most in their own composition.
pub open spec fn same_but_composition(s: ColonyFormingScenario, t: ColonyFormingScenario) -> bool {
    &&& s.homes@ == t.homes@
    &&& s.economy == t.economy
    &&& s.combat_priority == t.combat_priority
    &&& s.per_member_cap == t.per_member_cap
    &&& s.budget_ticks == t.budget_ticks
    &&& s.member_ttl == t.member_ttl
    &&& s.renew == t.renew
}

/// The scenario's own composition never affects a defended lifecycle: whatever the answers,
/// the run asks the same questions and comes to the same end.
pub proof fn own_composition_is_overridden(
    s: ColonyFormingScenario,
    t: ColonyFormingScenario,
    answers: Seq<DefendedAnswer>,
)
    requires
        same_but_composition(s, t),
    ensures
        ran(s, answers).1 == ran(t, answers).1,
{
    lemma_runs_agree(s, t, answers);
}

proof fn lemma_runs_agree(
    s: ColonyFormingScenario,
    t: ColonyFormingScenario,
    answers: Seq<DefendedAnswer>,
)
    requires
        same_but_composition(s, t),
    ensures
        ran(s, answers).1 == ran(t, answers).1,
        ran(s, answers).0 == ran(t, answers).0 || (ran(s, answers).0 == DefendedView::Planning(s)
            && ran(t, answers).0 == DefendedView::Planning(t)),
    decreases answers.len(),
{
    if answers.len() > 0 {
        lemma_runs_agree(s, t, answers.drop_last());
        let a = answers.last();
        if let DefendedAnswer::Planned { plan, sized_slots, ceiling_slots } = a {
            let slots = if force_of(plan) == Fielded::Sized {
                sized_slots
            } else {
                ceiling_slots
            };
            assert(started(ColonyFormingScenario { slots, ..s }) == started(
                ColonyFormingScenario { slots, ..t },
            ));
        }
    }
}

/// A run that ends with a kill formed its force and destroyed the core with it.
pub proof fn a_defended_kill_takes_the_core(v: DefendedView, a: DefendedAnswer)
    ensures
        v.answered(a).1 matches DefendedAsk::Finished(o) && o is Killed ==> {
            &&& v is Engaging
            &&& a matches DefendedAnswer::Engaged(Some(e))
            &&& e.stop == StopReason::ObjectivesComplete
        },
{
}

/// A defended lifecycle in progress.
#[derive(Clone, Debug)]
pub enum DefendedRun {
    Planning(ColonyFormingScenario),
    Forming { run: FormingRun, fielded: Fielded, drains: bool },
    Engaging { form_ticks: u32, fielded: Fielded, drains: bool },
    Ended,
}

impl View for DefendedRun {
    type V = DefendedView;

    open spec fn view(&self) -> DefendedView {
        match *self {
            DefendedRun::Planning(s) => DefendedView::Planning(s),
            DefendedRun::Forming { run, fielded, drains } => DefendedView::Forming {
                run: run@,
                fielded,
                drains,
            },
            DefendedRun::Engaging { form_ticks, fielded, drains } => DefendedView::Engaging {
                form_ticks,
                fielded,
                drains,
            },
            DefendedRun::Ended => DefendedView::Ended,
        }
    }
}

fn formed(run: FormingRun, ask: FormingRequest, fielded: Fielded, drains: bool) -> (r: (
    DefendedRun,
    DefendedRequest,
))
    requires
        run@.wf(),
        !(ask is Finished) ==> run@.tick < run@.budget,
        ask is RunLane ==> run@.lane < run@.colony.homes.len(),
    ensures
        (r.0@, r.1@) == formed_on(run@, ask@, fielded, drains),
        r.0@.wf(),
        r.0@.asks_a_home(r.1@),
{
    match ask {
        FormingRequest::Finished(outcome) => match after_forming(outcome) {
            AfterForming::Ended(outcome) => (
                DefendedRun::Ended,
                DefendedRequest::Finished(outcome),
            ),
            AfterForming::Engage { form_ticks } => (
                DefendedRun::Engaging { form_ticks, fielded, drains },
                DefendedRequest::Engage { fielded, drains },
            ),
        },
        ask => (
            DefendedRun::Forming { run, fielded, drains },
            DefendedRequest::Form { fielded, ask },
        ),
    }
}

impl DefendedRun {
    /// The run before its plan, and its first question.
    pub fn start(s: ColonyFormingScenario) -> (r: (DefendedRun, DefendedRequest))
        requires
            scenario_fits(s),
        ensures
            (r.0@, r.1@) == ran(s, seq![]),
            r.0@.wf(),
            r.0@.asks_a_home(r.1@),
    {
        let member_energy: u32 = build_energy(&s.homes, s.per_member_cap);
        (DefendedRun::Planning(s), DefendedRequest::Plan { member_energy })
    }

    /// Answer to [`DefendedRequest::Plan`]: the plan, and the slots of the two forces that
    /// it may come to. `sized_slots` counts only where the plan has a composition.
    pub fn planned(self, plan: PlanSummary, sized_slots: usize, ceiling_slots: usize) -> (r: (
        DefendedRun,
        DefendedRequest,
    ))
        requires
            self@.wf(),
        ensures
            (r.0@, r.1@) == self@.answered(
                DefendedAnswer::Planned { plan, sized_slots, ceiling_slots },
            ),
            r.0@.wf(),
            r.0@.asks_a_home(r.1@),
    {
        match self {
            DefendedRun::Planning(s) => {
                let fielded: Fielded = roster_choice(plan);
                let slots: usize = match fielded {
                    Fielded::Sized => sized_slots,
                    Fielded::Ceiling => ceiling_slots,
                };
                let terms = ColonyFormingScenario {
                    slots,
                    homes: copied(&s.homes),
                    economy: s.economy,
                    combat_priority: s.combat_priority,
                    per_member_cap: s.per_member_cap,
                    budget_ticks: s.budget_ticks,
                    member_ttl: s.member_ttl,
                    renew: s.renew,
                };
                assert(started(terms) == started(ColonyFormingScenario { slots, ..s }));
                let (run, ask) = FormingRun::start(&terms);
                formed(run, ask, fielded, drains(plan))
            },
            other => (other, DefendedRequest::Unasked),
        }
    }

    /// Answer to a [`FormingRequest::Ready`].
    pub fn ready_known(self, ready: bool) -> (r: (DefendedRun, DefendedRequest))
        requires
            self@.wf(),
        ensures
            (r.0@, r.1@) == self@.answered(DefendedAnswer::Ready(ready)),
            r.0@.wf(),
            r.0@.asks_a_home(r.1@),
    {
        match self {
            DefendedRun::Forming { mut run, fielded, drains } => {
                let ask: FormingRequest = run.ready_known(ready);
                formed(run, ask, fielded, drains)
            },
            other => (other, DefendedRequest::Unasked),
        }
    }

    /// Answer to a [`FormingRequest::Field`]: the slots to spawn.
    pub fn field_given(self, combat: Vec<QueuedSpawn>) -> (r: (DefendedRun, DefendedRequest))
        requires
            self@.wf(),
        ensures
            (r.0@, r.1@) == self@.answered(DefendedAnswer::Field(combat@)),
            r.0@.wf(),
            r.0@.asks_a_home(r.1@),
    {
        match self {
            DefendedRun::Forming { mut run, fielded, drains } => {
                let ask: FormingRequest = run.field_given(combat);
                formed(run, ask, fielded, drains)
            },
            other => (other, DefendedRequest::Unasked),
        }
    }

    /// Answer to a [`FormingRequest::RunLane`]: what the lane did.
    pub fn lane_done(self, reply: &LaneReply) -> (r: (DefendedRun, DefendedRequest))
        requires
            self@.wf(),
            self@.takes(*reply),
        ensures
            (r.0@, r.1@) == self@.answered(DefendedAnswer::Lane(*reply)),
            r.0@.wf(),
            r.0@.asks_a_home(r.1@),
    {
        match self {
            DefendedRun::Forming { mut run, fielded, drains } => {
                let ask: FormingRequest = run.lane_done(reply);
                formed(run, ask, fielded, drains)
            },
            other => (other, DefendedRequest::Unasked),
        }
    }

    /// Answer to [`DefendedRequest::Engage`]; `None` where the force could not be put down.
    pub fn engaged(self, e: Option<Engagement>) -> (r: (DefendedRun, DefendedRequest))
        requires
            self@.wf(),
        ensures
            (r.0@, r.1@) == self@.answered(DefendedAnswer::Engaged(e)),
            r.0@.wf(),
            r.0@.asks_a_home(r.1@),
    {
        match self {
            DefendedRun::Engaging { form_ticks, .. } => (
                DefendedRun::Ended,
                DefendedRequest::Finished(after_engagement(form_ticks, e)),
            ),
            other => (other, DefendedRequest::Unasked),
        }
    }
}

/// The plan decides what is formed: the sized force has its own slots, the ceiling its own,
/// and only a drain that is thought winnable is drained first.
pub proof fn the_plan_decides_the_force(
    s: ColonyFormingScenario,
    plan: PlanSummary,
    sized_slots: usize,
    ceiling_slots: usize,
)
    requires
        s.budget_ticks > 0,
    ensures
        ({
            let (v, ask) = DefendedView::Planning(s).answered(
                DefendedAnswer::Planned { plan, sized_slots, ceiling_slots },
            );
            let sized = plan.winnable && plan.has_composition && (plan.mode is Breach
                || plan.mode is Drain);
            &&& v matches DefendedView::Forming { run, fielded, drains } && {
                &&& sized ==> fielded == Fielded::Sized && run.colony.filled.len() == sized_slots
                &&& !sized ==> fielded == Fielded::Ceiling && run.colony.filled.len()
                    == ceiling_slots
                &&& drains ==> plan.winnable && plan.mode is Drain
                &&& plan.winnable && plan.mode is Drain ==> drains
                &&& run.tick == 0
                &&& run.budget == s.budget_ticks
                &&& run.member_ttl == s.member_ttl
                &&& run.renew == s.renew
            }
            &&& ask matches DefendedAsk::Form { fielded, ask } && {
                &&& fielded == (v->Forming_fielded)
                &&& ask matches FormingAsk::Ready { slots, .. } && slots == if sized {
                    sized_slots
                } else {
                    ceiling_slots
                }
            }
        }),
{
}

/// A formed force is sent as it was planned, with the ticks that it took; one that never
/// formed ends the run with what was there.
pub proof fn a_formed_force_is_sent(
    run: FormingView,
    ticks: u32,
    filled: usize,
    of: usize,
    fielded: Fielded,
    drains: bool,
)
    ensures
        formed_on(
            run,
            FormingAsk::Finished(FormingOutcome::Completed { ticks }),
            fielded,
            drains,
        ) == (
            DefendedView::Engaging { form_ticks: ticks, fielded, drains },
            DefendedAsk::Engage { fielded, drains },
        ),
        formed_on(
            run,
            FormingAsk::Finished(FormingOutcome::Stalled { filled, of }),
            fielded,
            drains,
        ) == (
            DefendedView::Ended,
            DefendedAsk::Finished(LifecycleOutcome::NeverFormed { filled, of }),
        ),
{
}

/// A force in the field ends the run by what came of it, with the ticks that it formed for.
pub proof fn a_fight_ends_the_run(
    form_ticks: u32,
    ticks: u32,
    fielded: Fielded,
    drains: bool,
    stop: StopReason,
)
    ensures
        ({
            let v = DefendedView::Engaging { form_ticks, fielded, drains };
            let end = v.answered(DefendedAnswer::Engaged(Some(Engagement { stop, ticks })));
            &&& end.0 is Ended
            &&& stop is ObjectivesComplete ==> end.1 == DefendedAsk::Finished(
                LifecycleOutcome::Killed { form_ticks, engage_ticks: ticks },
            )
            &&& stop is SideWiped ==> end.1 == DefendedAsk::Finished(
                LifecycleOutcome::RosterWiped { form_ticks, engage_ticks: ticks },
            )
            &&& stop is Timeout || stop is ControllerNeutralized ==> end.1
                == DefendedAsk::Finished(
                LifecycleOutcome::Stalled { form_ticks, engage_ticks: ticks },
            )
            &&& v.answered(DefendedAnswer::Engaged(None)).1 == DefendedAsk::Finished(
                LifecycleOutcome::CouldNotField { form_ticks },
            )
        }),
{
}

/// Members are planned at no more than the cap and no more than the best home holds, and at
/// one of the two.
pub proof fn members_are_planned_in_reach(s: ColonyFormingScenario, i: int)
    requires
        0 <= i < s.homes@.len(),
    ensures
        first_ask(s) matches DefendedAsk::Plan { member_energy } && {
            &&& member_energy <= s.per_member_cap
            &&& member_energy == s.per_member_cap || member_energy >= s.homes@[i].energy_capacity
            &&& exists|k: int|
                0 <= k < s.homes@.len() && member_energy <= (
                #[trigger] s.homes@[k]).energy_capacity
        },
{
    crate::colony::best_capacity_is_the_best(s.homes@);
}

} // verus!
