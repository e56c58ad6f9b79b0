//! The offense production layer end to end: candidates that pass the winnability
//! gate become objectives, and one squad claims, forms, travels and engages.
//!
//! [`OffenseRun`] is driven by questions. Each method takes the answer to the last
//! question and returns the next one, until the run is finished.

use crate::lease::{
    elapsed, ticks_since, ChurnOutcome, ReconcileAction, ReconcileSnapshot, COMMITMENT_BUDGET,
    MAX_FORMING_BUDGET, MAX_TRAVEL_BUDGET,
};
use crate::lists::copied;
use crate::march::{is_forming, marched, March, MarchStep, V1Phase};
use crate::objective_queue::{QueueView, V1Queue, V1Room};
use vstd::prelude::*;

verus! {

/// What a squad is sent to do.
#[derive(Clone, Copy, Debug, PartialEq, Eq, Structural)]
pub enum DoctrineObjective {
    KillImmuneStructure,
    DismantleStructure,
    ClearCreeps,
    RaidCreeps,
    Other,
}

/// An offense candidate. How it is defended only the winnability gate reads.
#[derive(Clone, Copy, Debug)]
pub struct OffenseCandidate {
    pub room: V1Room,
    pub objective: DoctrineObjective,
    /// Whether a hopeless verdict defers the candidate.
    pub honor_verdict: bool,
    /// Bit pattern of the value at stake.
    pub target_value: u32,
}

/// An offense scenario.
#[derive(Debug)]
pub struct OffenseFlowScenario {
    pub home: V1Room,
    pub candidates: Vec<OffenseCandidate>,
    pub member_energy: u32,
    pub onsite_window: u32,
    pub scan_period: u32,
    pub objective_ttl: u32,
    pub form_ticks: u32,
    pub budget_ticks: u32,
}

impl Clone for OffenseFlowScenario {
    fn clone(&self) -> (r: Self)
        ensures
            r.candidates@ == self.candidates@,
            (OffenseFlowScenario { candidates: self.candidates, ..r }) == *self,
    {
        OffenseFlowScenario {
            home: self.home,
            candidates: copied(&self.candidates),
            member_energy: self.member_energy,
            onsite_window: self.onsite_window,
            scan_period: self.scan_period,
            objective_ttl: self.objective_ttl,
            form_ticks: self.form_ticks,
            budget_ticks: self.budget_ticks,
        }
    }
}

/// What the run needs to know next.
#[derive(Clone, Copy, Debug)]
pub enum OffenseRequest {
    /// Which candidates does the winnability gate field?
    Scan,
    Reconcile(ReconcileSnapshot),
    Finished(ChurnOutcome),
}

/// Priority of an objective of this class.
pub open spec fn class_priority(o: DoctrineObjective) -> i32 {
    match o {
        DoctrineObjective::KillImmuneStructure | DoctrineObjective::DismantleStructure => 50,
        DoctrineObjective::ClearCreeps => 75,
        _ => 25,
    }
}

/// The queue after a scan: each candidate that is fielded asks for its room.
pub open spec fn emitted(
    q: QueueView,
    c: Seq<OffenseCandidate>,
    fielded: Seq<bool>,
    now: u32,
    ttl: u32,
) -> QueueView
    decreases c.len(),
{
    if c.len() == 0 {
        q
    } else {
        let before = emitted(q, c.drop_last(), fielded, now, ttl);
        if fielded[c.len() - 1] {
            before.requested(c.last().room, class_priority(c.last().objective), now, ttl)
        } else {
            before
        }
    }
}

/// The state of a run.
#[verifier::ext_equal]
pub struct OffenseView {
    pub s: OffenseFlowScenario,
    pub queue: QueueView,
    pub tick: u32,
    pub generation: u32,
    pub claimed: Option<u32>,
    pub march: March,
    pub deadline: u32,
    pub gen_start: u32,
}

impl OffenseView {
    pub open spec fn wf(self) -> bool {
        &&& self.queue.wf()
        &&& self.s.scan_period > 0
        &&& self.tick <= self.s.budget_ticks
        &&& self.s.budget_ticks + COMMITMENT_BUDGET <= u32::MAX
        &&& self.s.budget_ticks + self.s.form_ticks <= u32::MAX
        &&& self.s.budget_ticks + self.s.objective_ttl <= u32::MAX
        &&& self.generation <= self.tick
    }

    /// A free squad claims the best objective and forms for it.
    pub open spec fn claiming(self) -> OffenseView {
        match (self.claimed, self.queue.best_unclaimed(u32::MAX)) {
            (None, Some(id)) => OffenseView {
                queue: self.queue.claimed(id),
                claimed: Some(id),
                march: March {
                    phase: V1Phase::Forming,
                    pos: self.s.home,
                    form_done_at: (self.tick + self.s.form_ticks) as u32,
                    ..self.march
                },
                deadline: (self.tick + COMMITMENT_BUDGET) as u32,
                gen_start: self.tick,
                ..self
            },
            _ => self,
        }
    }

    pub open spec fn snapshot(self, gone: bool, step: MarchStep) -> ReconcileSnapshot {
        let forming = is_forming(self.march, self.tick);
        ReconcileSnapshot {
            objective_gone: gone,
            duplicate: false,
            is_defend: false,
            deadline_lapsed: self.tick >= self.deadline,
            wiped: false,
            has_focus: false,
            engaged_once: false,
            in_target_room: false,
            has_members: true,
            forming,
            forming_progress: forming,
            forming_in_flight: forming,
            forming_budget_remaining: elapsed(self.tick, self.gen_start) < MAX_FORMING_BUDGET,
            traveling: step.traveling,
            travel_progress: step.progress,
            travel_budget_remaining: elapsed(self.tick, self.march.travel_start)
                < MAX_TRAVEL_BUDGET,
            holding_station: false,
            declaiming: false,
            reassign_available: false,
            retreated_from_contact: false,
        }
    }

    /// A squad in its target's room engages; any other moves and reports.
    pub open spec fn moved(self, id: u32) -> (OffenseView, OffenseRequest) {
        let target = match self.queue.get(id) {
            Some(o) => Some(o.room),
            None => None,
        };
        let step = marched(self.march, target, self.tick);
        let v = OffenseView { march: step.march, ..self };
        if step.in_room {
            (
                v,
                OffenseRequest::Finished(
                    ChurnOutcome::DeployedAndEngaged {
                        generations: self.generation,
                        engage_tick: self.tick,
                    },
                ),
            )
        } else {
            (v, OffenseRequest::Reconcile(v.snapshot(target is None, step)))
        }
    }

    pub open spec fn exhausted(self) -> ChurnOutcome {
        ChurnOutcome::ChurnedNeverDeployed { generations: self.generation, max_present: 0 }
    }

    /// The queue is settled for this tick: the squad acts, or the tick passes.
    pub open spec fn acted(self) -> (OffenseView, OffenseRequest)
        decreases self.s.budget_ticks - self.tick, 0int,
    {
        let c = self.claiming();
        match c.claimed {
            Some(id) => c.moved(id),
            None => if self.tick < self.s.budget_ticks {
                OffenseView { tick: (self.tick + 1) as u32, ..c }.opened()
            } else {
                (c, OffenseRequest::Finished(c.exhausted()))
            },
        }
    }

    /// A tick opens with a scan or without, or the budget is used up.
    pub open spec fn opened(self) -> (OffenseView, OffenseRequest)
        decreases self.s.budget_ticks - self.tick, 1int,
    {
        if self.tick >= self.s.budget_ticks {
            (self, OffenseRequest::Finished(self.exhausted()))
        } else if self.tick % self.s.scan_period == 0 {
            (self, OffenseRequest::Scan)
        } else {
            OffenseView { queue: self.queue.expired(self.tick), ..self }.acted()
        }
    }

    /// The fielded candidates enter the queue.
    pub open spec fn scanned(self, fielded: Seq<bool>) -> (OffenseView, OffenseRequest) {
        OffenseView {
            queue: emitted(
                self.queue,
                self.s.candidates@,
                fielded,
                self.tick,
                self.s.objective_ttl,
            ).expired(self.tick),
            ..self
        }.acted()
    }

    pub open spec fn next_tick(self) -> (OffenseView, OffenseRequest) {
        OffenseView { tick: (self.tick + 1) as u32, ..self }.opened()
    }

    /// The report is judged.
    pub open spec fn reconciled(self, action: ReconcileAction) -> (OffenseView, OffenseRequest) {
        let id = self.claimed->0;
        match action {
            ReconcileAction::Retire { withdraw, .. } => OffenseView {
                queue: if withdraw {
                    self.queue.withdrawn(id)
                } else {
                    self.queue.released(id)
                },
                generation: (self.generation + 1) as u32,
                claimed: None,
                march: March { phase: V1Phase::Forming, ..self.march },
                ..self
            }.next_tick(),
            ReconcileAction::KeepRefreshLease => OffenseView {
                deadline: (self.tick + COMMITMENT_BUDGET) as u32,
                ..self
            }.next_tick(),
            _ => self.next_tick(),
        }
    }
}

/// The state before the first tick.
pub open spec fn offense_started(s: OffenseFlowScenario) -> OffenseView {
    OffenseView {
        s,
        queue: QueueView::empty(),
        tick: 0,
        generation: 0,
        claimed: None,
        march: March {
            phase: V1Phase::Forming,
            pos: s.home,
            form_done_at: s.form_ticks,
            travel_start: 0,
        },
        deadline: COMMITMENT_BUDGET,
        gen_start: 0,
    }
}

/// Where no candidate passes the force test, nothing enters the queue.
pub proof fn gated_out_means_nothing_queued(
    q: QueueView,
    c: Seq<OffenseCandidate>,
    fielded: Seq<bool>,
    now: u32,
    ttl: u32,
)
    requires
        fielded.len() == c.len(),
        forall|i: int| 0 <= i < fielded.len() ==> !(#[trigger] fielded[i]),
    ensures
        emitted(q, c, fielded, now, ttl) == q,
    decreases c.len(),
{
    if c.len() > 0 {
        let f = fielded.drop_last();
        lemma_emitted_reads_its_own(q, c.drop_last(), fielded, f, now, ttl);
        gated_out_means_nothing_queued(q, c.drop_last(), f, now, ttl);
    }
}

proof fn lemma_emitted_reads_its_own(
    q: QueueView,
    c: Seq<OffenseCandidate>,
    f: Seq<bool>,
    g: Seq<bool>,
    now: u32,
    ttl: u32,
)
    requires
        forall|i: int| 0 <= i < c.len() ==> f[i] == #[trigger] g[i],
    ensures
        emitted(q, c, f, now, ttl) == emitted(q, c, g, now, ttl),
    decreases c.len(),
{
    if c.len() > 0 {
        lemma_emitted_reads_its_own(q, c.drop_last(), f, g, now, ttl);
        assert(f[c.len() - 1] == g[c.len() - 1]);
    }
}

/// A scan that fields nothing moves no squad: with an empty queue and no claim it
/// leads straight to the next tick.
pub proof fn gated_out_fields_no_squad(v: OffenseView, fielded: Seq<bool>)
    requires
        v.queue.objectives.len() == 0,
        v.claimed is None,
        v.tick < v.s.budget_ticks,
        fielded.len() == v.s.candidates@.len(),
        forall|i: int| 0 <= i < fielded.len() ==> !(#[trigger] fielded[i]),
    ensures
        v.scanned(fielded) == v.next_tick(),
{
    gated_out_means_nothing_queued(
        v.queue,
        v.s.candidates@,
        fielded,
        v.tick,
        v.s.objective_ttl,
    );
    v.queue.objectives.lemma_filter_len(crate::objective_queue::wanted_at(v.tick));
    assert(v.queue.expired(v.tick) =~= v.queue);
    let e = OffenseView { queue: v.queue.expired(v.tick), ..v };
    assert(e =~= v);
    assert(v.claiming() == v);
}

/// An offense run in progress.
#[derive(Debug)]
pub struct OffenseRun {
    s: OffenseFlowScenario,
    queue: V1Queue,
    tick: u32,
    generation: u32,
    claimed: Option<u32>,
    march: March,
    deadline: u32,
    gen_start: u32,
}

impl View for OffenseRun {
    type V = OffenseView;

    closed spec fn view(&self) -> OffenseView {
        OffenseView {
            s: self.s,
            queue: self.queue@,
            tick: self.tick,
            generation: self.generation,
            claimed: self.claimed,
            march: self.march,
            deadline: self.deadline,
            gen_start: self.gen_start,
        }
    }
}

/// Priority of an objective of this class: a flag over a structure over a raid.
pub fn objective_priority(o: DoctrineObjective) -> (r: i32)
    ensures
        r == class_priority(o),
{
    match o {
        DoctrineObjective::KillImmuneStructure | DoctrineObjective::DismantleStructure => 50,
        DoctrineObjective::ClearCreeps => 75,
        _ => 25,
    }
}

fn emit(queue: &mut V1Queue, c: &Vec<OffenseCandidate>, fielded: &Vec<bool>, now: u32, ttl: u32)
    requires
        old(queue)@.wf(),
        now + ttl <= u32::MAX,
        fielded@.len() == c@.len(),
        old(queue)@.next_id + c@.len() <= u32::MAX,
    ensures
        final(queue)@ == emitted(old(queue)@, c@, fielded@, now, ttl),
        final(queue)@.wf(),
{
    let ghost q0 = queue@;
    let mut j: usize = 0;
    assert(c@.take(0) =~= Seq::<OffenseCandidate>::empty());
    while j < c.len()
        invariant
            j <= c@.len(),
            now + ttl <= u32::MAX,
            fielded@.len() == c@.len(),
            q0.next_id + c@.len() <= u32::MAX,
            queue@.wf(),
            queue@ == emitted(q0, c@.take(j as int), fielded@, now, ttl),
            queue@.next_id <= q0.next_id + j,
        decreases c.len() - j,
    {
        assert(c@.take(j as int + 1).drop_last() =~= c@.take(j as int));
        if fielded[j] {
            let _id: u32 = queue.request(c[j].room, objective_priority(c[j].objective), now, ttl);
        }
        j = j + 1;
    }
    assert(c@.take(j as int) =~= c@);
}

impl OffenseRun {
    /// The run at its first tick, and its first question.
    pub fn start(s: OffenseFlowScenario) -> (r: (OffenseRun, OffenseRequest))
        requires
            s.scan_period > 0,
            s.budget_ticks + COMMITMENT_BUDGET <= u32::MAX,
            s.budget_ticks + s.form_ticks <= u32::MAX,
            s.budget_ticks + s.objective_ttl <= u32::MAX,
        ensures
            (r.0@, r.1) == offense_started(s).opened(),
            r.0@.wf(),
            !(r.1 is Finished) ==> r.0@.tick < r.0@.s.budget_ticks,
            r.1 is Reconcile ==> r.0@.claimed is Some,
    {
        let march = March {
            phase: V1Phase::Forming,
            pos: s.home,
            form_done_at: s.form_ticks,
            travel_start: 0,
        };
        let mut run = OffenseRun {
            s,
            queue: V1Queue::default(),
            tick: 0,
            generation: 0,
            claimed: None,
            march,
            deadline: COMMITMENT_BUDGET,
            gen_start: 0,
        };
        assert(run@ =~= offense_started(s));
        let first: OffenseRequest = run.open_tick();
        (run, first)
    }

    fn exhausted(&self) -> (r: ChurnOutcome)
        ensures
            r == self@.exhausted(),
    {
        ChurnOutcome::ChurnedNeverDeployed { generations: self.generation, max_present: 0 }
    }

    fn claim_best(&mut self)
        requires
            old(self)@.wf(),
        ensures
            final(self)@ == old(self)@.claiming(),
            final(self)@.wf(),
    {
        let ghost v0 = self@;
        if self.claimed.is_none() {
            if let Some(id) = self.queue.best_unclaimed_excluding(u32::MAX) {
                self.queue.claim(id);
                self.claimed = Some(id);
                self.march = March {
                    phase: V1Phase::Forming,
                    pos: self.s.home,
                    form_done_at: self.tick + self.s.form_ticks,
                    travel_start: self.march.travel_start,
                };
                self.deadline = self.tick + COMMITMENT_BUDGET;
                self.gen_start = self.tick;
            }
        }
        assert(self@ =~= v0.claiming());
    }

    fn advance_squad(&mut self, id: u32) -> (r: OffenseRequest)
        requires
            old(self)@.wf(),
        ensures
            (final(self)@, r) == old(self)@.moved(id),
            final(self)@.wf(),
            !(r is Scan),
    {
        let ghost v0 = self@;
        let target: Option<V1Room> = match self.queue.get(id) {
            Some(o) => Some(o.room),
            None => None,
        };
        let step: MarchStep = self.march.advance(target, self.tick);
        self.march = step.march;
        assert(self@ =~= OffenseView { march: step.march, ..v0 });
        if step.in_room {
            return OffenseRequest::Finished(
                ChurnOutcome::DeployedAndEngaged {
                    generations: self.generation,
                    engage_tick: self.tick,
                },
            );
        }
        let forming: bool = self.march.forming(self.tick);
        OffenseRequest::Reconcile(
            ReconcileSnapshot {
                objective_gone: target.is_none(),
                duplicate: false,
                is_defend: false,
                deadline_lapsed: self.tick >= self.deadline,
                wiped: false,
                has_focus: false,
                engaged_once: false,
                in_target_room: false,
                has_members: true,
                forming,
                forming_progress: forming,
                forming_in_flight: forming,
                forming_budget_remaining: ticks_since(self.tick, self.gen_start)
                    < MAX_FORMING_BUDGET,
                traveling: step.traveling,
                travel_progress: step.progress,
                travel_budget_remaining: ticks_since(self.tick, self.march.travel_start)
                    < MAX_TRAVEL_BUDGET,
                holding_station: false,
                declaiming: false,
                reassign_available: false,
                retreated_from_contact: false,
            },
        )
    }

    fn act(&mut self) -> (r: OffenseRequest)
        requires
            old(self)@.wf(),
            old(self)@.tick < old(self)@.s.budget_ticks,
        ensures
            (final(self)@, r) == old(self)@.acted(),
            final(self)@.wf(),
            !(r is Finished) ==> final(self)@.tick < final(self)@.s.budget_ticks,
            r is Reconcile ==> final(self)@.claimed is Some,
    {
        loop
            invariant
                self@.wf(),
                self@.tick < self@.s.budget_ticks,
                self@.acted() == old(self)@.acted(),
            decreases self@.s.budget_ticks - self@.tick,
        {
            let ghost v0 = self@;
            self.claim_best();
            let ghost c = self@;
            if let Some(id) = self.claimed {
                return self.advance_squad(id);
            }
            self.tick = self.tick + 1;
            assert(self@ =~= OffenseView { tick: (v0.tick + 1) as u32, ..c });
            if self.tick >= self.s.budget_ticks {
                return OffenseRequest::Finished(self.exhausted());
            }
            if self.tick % self.s.scan_period == 0 {
                return OffenseRequest::Scan;
            }
            let ghost v1 = self@;
            self.queue.expire(self.tick);
            assert(self@ =~= OffenseView { queue: v1.queue.expired(v1.tick), ..v1 });
        }
    }

    fn open_tick(&mut self) -> (r: OffenseRequest)
        requires
            old(self)@.wf(),
        ensures
            (final(self)@, r) == old(self)@.opened(),
            final(self)@.wf(),
            !(r is Finished) ==> final(self)@.tick < final(self)@.s.budget_ticks,
            r is Reconcile ==> final(self)@.claimed is Some,
    {
        if self.tick >= self.s.budget_ticks {
            return OffenseRequest::Finished(self.exhausted());
        }
        if self.tick % self.s.scan_period == 0 {
            return OffenseRequest::Scan;
        }
        let ghost v0 = self@;
        self.queue.expire(self.tick);
        assert(self@ =~= OffenseView { queue: v0.queue.expired(v0.tick), ..v0 });
        self.act()
    }

    /// Answer to [`OffenseRequest::Scan`]: for each candidate, whether a force
    /// is fielded for it.
    pub fn scanned(&mut self, fielded: &Vec<bool>) -> (r: OffenseRequest)
        requires
            old(self)@.wf(),
            old(self)@.tick < old(self)@.s.budget_ticks,
            fielded@.len() == old(self)@.s.candidates@.len(),
            old(self)@.queue.next_id + fielded@.len() <= u32::MAX,
        ensures
            (final(self)@, r) == old(self)@.scanned(fielded@),
            final(self)@.wf(),
            !(r is Finished) ==> final(self)@.tick < final(self)@.s.budget_ticks,
            r is Reconcile ==> final(self)@.claimed is Some,
    {
        let ghost v0 = self@;
        emit(&mut self.queue, &self.s.candidates, fielded, self.tick, self.s.objective_ttl);
        self.queue.expire(self.tick);
        assert(self@ =~= OffenseView {
            queue: emitted(
                v0.queue,
                v0.s.candidates@,
                fielded@,
                v0.tick,
                v0.s.objective_ttl,
            ).expired(v0.tick),
            ..v0
        });
        self.act()
    }

    fn next_tick(&mut self) -> (r: OffenseRequest)
        requires
            old(self)@.tick < old(self)@.s.budget_ticks,
            (OffenseView { tick: (old(self)@.tick + 1) as u32, ..old(self)@ }).wf(),
        ensures
            (final(self)@, r) == old(self)@.next_tick(),
            final(self)@.wf(),
            !(r is Finished) ==> final(self)@.tick < final(self)@.s.budget_ticks,
            r is Reconcile ==> final(self)@.claimed is Some,
    {
        let ghost v0 = self@;
        self.tick = self.tick + 1;
        assert(self@ =~= OffenseView { tick: (v0.tick + 1) as u32, ..v0 });
        self.open_tick()
    }

    /// Answer to [`OffenseRequest::Reconcile`]: the judgement on the squad. An
    /// offense squad is never rebound.
    pub fn reconciled(&mut self, action: ReconcileAction) -> (r: OffenseRequest)
        requires
            old(self)@.wf(),
            old(self)@.tick < old(self)@.s.budget_ticks,
            old(self)@.claimed is Some,
            !(action is Reassign),
        ensures
            (final(self)@, r) == old(self)@.reconciled(action),
            final(self)@.wf(),
            !(r is Finished) ==> final(self)@.tick < final(self)@.s.budget_ticks,
            r is Reconcile ==> final(self)@.claimed is Some,
    {
        let ghost v0 = self@;
        let id: u32 = self.claimed.unwrap();
        match action {
            ReconcileAction::Retire { withdraw, .. } => {
                if withdraw {
                    self.queue.withdraw(id);
                } else {
                    self.queue.release(id);
                }
                self.generation = self.generation + 1;
                self.claimed = None;
                self.march.phase = V1Phase::Forming;
                assert(self@ =~= OffenseView {
                    queue: if withdraw {
                        v0.queue.withdrawn(id)
                    } else {
                        v0.queue.released(id)
                    },
                    generation: (v0.generation + 1) as u32,
                    claimed: None,
                    march: March { phase: V1Phase::Forming, ..v0.march },
                    ..v0
                });
                self.next_tick()
            },
            ReconcileAction::KeepRefreshLease => {
                self.deadline = self.tick + COMMITMENT_BUDGET;
                assert(self@ =~= OffenseView {
                    deadline: (v0.tick + COMMITMENT_BUDGET) as u32,
                    ..v0
                });
                self.next_tick()
            },
            _ => self.next_tick(),
        }
    }
}

// ── What each question and each answer is for ──────────────────────────────

/// Clearing creeps is more urgent than structures, and these than any raid.
pub proof fn flags_go_before_structures_before_raids(o: DoctrineObjective)
    ensures
        class_priority(DoctrineObjective::ClearCreeps) == 75,
        class_priority(DoctrineObjective::KillImmuneStructure) == 50,
        class_priority(DoctrineObjective::DismantleStructure) == 50,
        !(o is ClearCreeps || o is KillImmuneStructure || o is DismantleStructure)
            ==> class_priority(o) == 25,
{
}

/// A candidate that passes the force test is queued for its room with its class's priority;
/// one that fails leaves the queue as the others made it.
pub proof fn a_fielded_candidate_is_queued(
    q: QueueView,
    c: Seq<OffenseCandidate>,
    x: OffenseCandidate,
    fielded: Seq<bool>,
    passes: bool,
    now: u32,
    ttl: u32,
)
    requires
        fielded.len() == c.len(),
    ensures
        ({
            let before = emitted(q, c, fielded, now, ttl);
            let after = emitted(q, c.push(x), fielded.push(passes), now, ttl);
            &&& !passes ==> after == before
            &&& passes ==> after == before.requested(
                x.room,
                class_priority(x.objective),
                now,
                ttl,
            )
        }),
{
    assert(c.push(x).drop_last() =~= c);
    lemma_emitted_reads_its_own(q, c, fielded, fielded.push(passes), now, ttl);
}

/// The offense scans on every tick that its period divides, while there is time; a run whose
/// time is up never deployed.
pub proof fn offense_scans_keep_their_period(v: OffenseView)
    requires
        v.s.scan_period > 0,
    ensures
        v.tick < v.s.budget_ticks && v.tick % v.s.scan_period == 0 ==> v.opened() == (
            v,
            OffenseRequest::Scan,
        ),
        v.tick >= v.s.budget_ticks ==> v.opened().1 == OffenseRequest::Finished(
            ChurnOutcome::ChurnedNeverDeployed { generations: v.generation, max_present: 0 },
        ),
{
}

/// A free squad takes the best objective that is left, marks it as its own, and forms for it
/// at home under a fresh lease of four hundred ticks. A bound squad stays bound.
pub proof fn offense_squads_take_the_best_left(v: OffenseView)
    requires
        v.tick + v.s.form_ticks <= u32::MAX,
        v.tick + 400 <= u32::MAX,
    ensures
        ({
            let w = v.claiming();
            &&& v.claimed is Some ==> w == v
            &&& v.claimed is None && v.queue.best_unclaimed(u32::MAX) is None ==> w == v
            &&& v.claimed is None && v.queue.best_unclaimed(u32::MAX) is Some ==> {
                let id = v.queue.best_unclaimed(u32::MAX)->0;
                &&& w.claimed == Some(id)
                &&& w.march.phase is Forming
                &&& w.march.pos == v.s.home
                &&& w.march.form_done_at == v.tick + v.s.form_ticks
                &&& w.deadline == v.tick + 400
                &&& w.gen_start == v.tick
                &&& w.generation == v.generation
                &&& w.tick == v.tick
                &&& w.queue.objectives.len() == v.queue.objectives.len()
                &&& forall|i: int|
                    0 <= i < w.queue.objectives.len() && (#[trigger] w.queue.objectives[i]).id
                        == id ==> w.queue.objectives[i].claimed
            }
        }),
{
}

/// A squad in its target's room engages at once; any other reports, fact by fact.
pub proof fn offense_engages_in_the_room(v: OffenseView, id: u32)
    ensures
        ({
            let there = v.queue.has(id) && v.march.phase is InRoom;
            let (w, ask) = v.moved(id);
            &&& there ==> ask == OffenseRequest::Finished(
                ChurnOutcome::DeployedAndEngaged {
                    generations: v.generation,
                    engage_tick: v.tick,
                },
            )
            &&& !there ==> (ask matches OffenseRequest::Reconcile(s) && {
            &&& !s.duplicate && !s.wiped && !s.retreated_from_contact && s.has_members
            &&& s.deadline_lapsed <==> v.tick >= v.deadline
            &&& s.forming <==> w.march.phase is Forming && v.tick < w.march.form_done_at
            &&& s.forming_progress == s.forming && s.forming_in_flight == s.forming
            &&& v.tick >= v.gen_start ==> (s.forming_budget_remaining <==> v.tick < v.gen_start
                + 3000)
            &&& v.tick >= w.march.travel_start ==> (s.travel_budget_remaining <==> v.tick
                < w.march.travel_start + 1000)
            &&& s.objective_gone <==> !v.queue.has(id)
            &&& s.traveling <==> v.queue.has(id) && v.march.phase is Traveling
            &&& !s.is_defend && !s.has_focus && !s.engaged_once && !s.holding_station
            &&& !s.reassign_available && !s.declaiming && !s.in_target_room
            })
        }),
{
}

/// A retired squad leaves its objective free or withdrawn and starts a new generation; a kept
/// one goes on, and only a refreshed lease moves its deadline.
pub proof fn offense_reconciled(v: OffenseView, action: ReconcileAction)
    requires
        v.tick + 1 >= v.s.budget_ticks,
        v.tick + 400 <= u32::MAX,
        v.generation < u32::MAX,
    ensures
        ({
            let w = v.reconciled(action).0;
            &&& w.tick == v.tick + 1
            &&& action is Retire ==> w.generation == v.generation + 1 && w.claimed is None
                && w.march.phase is Forming
            &&& action is Retire && action->withdraw ==> w.queue == v.queue.withdrawn(v.claimed->0)
            &&& action is Retire && !(action->withdraw) ==> w.queue == v.queue.released(
                v.claimed->0,
            )
            &&& !(action is Retire) ==> w.generation == v.generation && w.claimed == v.claimed
                && w.queue == v.queue
            &&& action is KeepRefreshLease ==> w.deadline == v.tick + 400
            &&& !(action is KeepRefreshLease) ==> w.deadline == v.deadline
        }),
{
}

/// A run starts at tick 0, at home and forming, with nothing claimed and 400 ticks to commit.
pub proof fn an_offense_run_starts_at_home(s: OffenseFlowScenario)
    ensures
        ({
            let v = offense_started(s);
            &&& v.s == s
            &&& v.tick == 0 && v.generation == 0 && v.claimed is None
            &&& v.march.phase == V1Phase::Forming && v.march.pos == s.home
            &&& v.march.form_done_at == v.tick + s.form_ticks
            &&& v.deadline == v.tick + 400 && v.gen_start == v.tick
        }),
{
}

} // verus!
