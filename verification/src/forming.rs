//! Forming a squad under spawn contention: spawns complete, members age and may be
//! renewed, and the squad departs once its roster is ready.
//!
//! [`FormingRun`] is driven by questions. Each method takes the answer to the last
//! question and returns the next one, until the run is finished.

use crate::colony::{
    all_false, arrivals, count_true, due_at, fresh_colony, homes_fit, lemma_booked_keeps,
    no_flags, no_ticks, reply_fits, zeros, Colony, ColonyFormingScenario, ColonyView, LaneOffer,
    LaneReply, QueuedSpawn,
};
use crate::lease::{elapsed, ticks_since};
use crate::lists::copied;
use vstd::prelude::*;

verus! {

/// Life that one renewal adds to a member.
pub const RENEW_PER_TICK: u32 = 20;

/// Members with less life left than this are renewed.
pub const RENEW_THRESHOLD: u32 = 100;

/// How forming ended.
#[derive(Clone, Copy, Debug, PartialEq, Eq, Structural)]
pub enum FormingOutcome {
    /// The roster was ready at this tick.
    Completed { ticks: u32 },
    /// The budget ran out with `filled` of `of` slots.
    Stalled { filled: usize, of: usize },
}

/// What the run needs to know next.
#[derive(Clone, Debug)]
pub enum FormingRequest {
    /// Is a squad with this many members at home ready?
    Ready { present: usize, slots: usize },
    /// Which slots are fielded, with which bodies?
    Field { filled: Vec<bool> },
    RunLane(LaneOffer),
    Finished(FormingOutcome),
}

/// A request over sequences.
#[verifier::ext_equal]
pub enum FormingAsk {
    Ready { present: nat, slots: nat },
    Field { filled: Seq<bool> },
    RunLane { home: int, energy: u32, capacity: u32, queue: Seq<QueuedSpawn> },
    Finished(FormingOutcome),
}

impl View for FormingRequest {
    type V = FormingAsk;

    open spec fn view(&self) -> FormingAsk {
        match *self {
            FormingRequest::Ready { present, slots } => FormingAsk::Ready {
                present: present as nat,
                slots: slots as nat,
            },
            FormingRequest::Field { filled } => FormingAsk::Field { filled: filled@ },
            FormingRequest::RunLane(o) => FormingAsk::RunLane {
                home: o.home as int,
                energy: o.available_energy,
                capacity: o.energy_capacity,
                queue: o.queue@,
            },
            FormingRequest::Finished(o) => FormingAsk::Finished(o),
        }
    }
}

/// The first of the eligible slots with the earliest death.
pub open spec fn soonest(eligible: Seq<bool>, dies_at: Seq<u32>) -> Option<int>
    decreases eligible.len(),
{
    if eligible.len() == 0 {
        None
    } else {
        let i = eligible.len() - 1;
        match soonest(eligible.drop_last(), dies_at) {
            None => if eligible[i] {
                Some(i)
            } else {
                None
            },
            Some(b) => if eligible[i] && dies_at[i] < dies_at[b] {
                Some(i)
            } else {
                Some(b)
            },
        }
    }
}

/// The pick is an eligible slot, none dies earlier, and none before it as early.
pub proof fn soonest_is_least(eligible: Seq<bool>, dies_at: Seq<u32>)
    requires
        eligible.len() <= dies_at.len(),
    ensures
        soonest(eligible, dies_at) matches Some(b) ==> {
            &&& 0 <= b < eligible.len()
            &&& eligible[b]
            &&& forall|j: int|
                0 <= j < eligible.len() && #[trigger] eligible[j] ==> dies_at[b] <= dies_at[j]
            &&& forall|j: int|
                0 <= j < b && #[trigger] eligible[j] ==> dies_at[b] < dies_at[j]
        },
        soonest(eligible, dies_at) is None ==> forall|j: int|
            0 <= j < eligible.len() ==> !#[trigger] eligible[j],
    decreases eligible.len(),
{
    if eligible.len() > 0 {
        let front = eligible.drop_last();
        soonest_is_least(front, dies_at);
        assert forall|j: int| 0 <= j < front.len() implies front[j] == #[trigger] eligible[j] by {}
    }
}

/// The state of a run.
#[verifier::ext_equal]
pub struct FormingView {
    pub colony: ColonyView,
    pub budget: u32,
    pub member_ttl: u32,
    pub renew: bool,
    pub tick: u32,
    pub dies_at: Seq<u32>,
    pub renewed: Seq<bool>,
    pub combat: Seq<QueuedSpawn>,
    pub lane: usize,
}

impl FormingView {
    pub open spec fn slots(self) -> nat {
        self.colony.filled.len()
    }

    pub open spec fn wf(self) -> bool {
        &&& self.colony.wf()
        &&& self.dies_at.len() == self.slots()
        &&& self.renewed.len() == self.slots()
        &&& self.tick <= self.budget
        &&& self.budget + self.member_ttl <= u32::MAX
        &&& self.budget + RENEW_THRESHOLD + RENEW_PER_TICK <= u32::MAX
        &&& self.lane <= self.colony.homes.len()
    }

    /// Spawns complete with a full life, then members whose time has come die.
    pub open spec fn aged(self) -> FormingView {
        let arrived = arrivals(self.colony.completing.filter(due_at(self.tick)), self.slots());
        let colony = self.colony.completed(self.tick);
        let dies_at = Seq::new(
            self.slots(),
            |i: int|
                if arrived[i] {
                    (self.tick + self.member_ttl) as u32
                } else {
                    self.dies_at[i]
                },
        );
        FormingView {
            colony: ColonyView {
                filled: Seq::new(
                    self.slots(),
                    |i: int| colony.filled[i] && dies_at[i] > self.tick,
                ),
                ..colony
            },
            dies_at,
            ..self
        }
    }

    pub open spec fn stalled(self) -> FormingOutcome {
        FormingOutcome::Stalled {
            filled: count_true(self.colony.filled) as usize,
            of: self.slots() as usize,
        }
    }

    /// A tick opens, or the budget is used up.
    pub open spec fn opened(self) -> (FormingView, FormingAsk) {
        if self.tick >= self.budget {
            (self, FormingAsk::Finished(self.stalled()))
        } else {
            let a = self.aged();
            (
                a,
                FormingAsk::Ready { present: count_true(a.colony.filled), slots: self.slots() },
            )
        }
    }

    /// The readiness question is answered.
    pub open spec fn ready_known(self, ready: bool) -> (FormingView, FormingAsk) {
        if ready {
            (self, FormingAsk::Finished(FormingOutcome::Completed { ticks: self.tick }))
        } else {
            (self, FormingAsk::Field { filled: self.colony.filled })
        }
    }

    /// Present, not yet renewed this tick, and short of life.
    pub open spec fn aging(self) -> Seq<bool> {
        Seq::new(
            self.slots(),
            |i: int|
                self.colony.filled[i] && !self.renewed[i] && elapsed(self.dies_at[i], self.tick)
                    < RENEW_THRESHOLD,
        )
    }

    /// The member that an idle home renews instead of spawning.
    pub open spec fn renew_pick(self) -> Option<int> {
        if self.renew {
            soonest(self.aging(), self.dies_at)
        } else {
            None
        }
    }

    /// Home `h` renews member `i`, which takes its lane for the tick.
    pub open spec fn renewed_at(self, h: int, i: int) -> FormingView {
        let longer = self.dies_at[i] + RENEW_PER_TICK;
        let most = self.tick + self.member_ttl;
        FormingView {
            dies_at: self.dies_at.update(
                i,
                if longer <= most {
                    longer as u32
                } else {
                    most as u32
                },
            ),
            renewed: self.renewed.update(i, true),
            colony: ColonyView {
                busy_until: self.colony.busy_until.update(h, (self.tick + 1) as u32),
                ..self.colony
            },
            ..self
        }
    }

    /// Homes bank in order from `h`. Busy ones are passed over, idle ones renew a
    /// member where there is one to renew, and the first other one stops the sweep.
    pub open spec fn swept(self, h: int) -> (FormingView, int)
        decreases self.colony.homes.len() - h,
    {
        if h >= self.colony.homes.len() || h < 0 {
            (self, h)
        } else {
            let b = FormingView { colony: self.colony.banked_at(h), ..self };
            if self.tick < self.colony.busy_until[h] {
                b.swept(h + 1)
            } else {
                match b.renew_pick() {
                    Some(i) => b.renewed_at(h, i).swept(h + 1),
                    None => (b, h),
                }
            }
        }
    }

    pub open spec fn next_lane(self) -> (FormingView, FormingAsk) {
        let (v, h) = self.swept(self.lane as int);
        if h >= self.colony.homes.len() {
            FormingView { tick: (v.tick + 1) as u32, ..v }.opened()
        } else {
            (
                FormingView { lane: h as usize, ..v },
                FormingAsk::RunLane {
                    home: h,
                    energy: v.colony.avail[h],
                    capacity: v.colony.homes[h].energy_capacity,
                    queue: v.colony.lane_queue(h, self.tick, self.combat, true),
                },
            )
        }
    }

    /// The slots to spawn are known.
    pub open spec fn field_given(self, combat: Seq<QueuedSpawn>) -> (FormingView, FormingAsk) {
        FormingView { combat, lane: 0, renewed: all_false(self.slots()), ..self }.next_lane()
    }

    /// The lane has run.
    pub open spec fn lane_done(self, reply: LaneReply) -> (FormingView, FormingAsk) {
        FormingView {
            colony: self.colony.booked(
                self.lane as int,
                self.tick,
                reply.available_energy,
                reply.spawned@,
            ),
            lane: (self.lane + 1) as usize,
            ..self
        }.next_lane()
    }
}

/// A run that stalls reports no more members than slots.
pub proof fn stall_counts_members(v: FormingView)
    ensures
        v.stalled() matches FormingOutcome::Stalled { filled, of } && (v.slots() <= usize::MAX
            ==> filled <= of && of == v.slots()),
{
    crate::colony::lemma_count_bound(v.colony.filled);
}

/// A renewal gives a member more life, up to a full one, and leaves the others alone.
pub proof fn renewal_lengthens_a_life(v: FormingView, h: int, i: int, j: int)
    requires
        v.wf(),
        v.tick < v.budget,
        v.renew_pick() == Some(i),
        v.dies_at[i] < v.tick + v.member_ttl,
        0 <= j < v.slots(),
    ensures
        0 <= i < v.slots(),
        v.colony.filled[i],
        v.dies_at[i] < v.renewed_at(h, i).dies_at[i] <= v.tick + v.member_ttl,
        j != i ==> v.renewed_at(h, i).dies_at[j] == v.dies_at[j],
{
    soonest_is_least(v.aging(), v.dies_at);
}

/// The state before the first tick.
pub open spec fn started(s: ColonyFormingScenario) -> FormingView {
    FormingView {
        colony: fresh_colony(s.homes@, s.economy, s.slots as nat),
        budget: s.budget_ticks,
        member_ttl: s.member_ttl,
        renew: s.renew,
        tick: 0,
        dies_at: zeros(s.slots as nat),
        renewed: all_false(s.slots as nat),
        combat: seq![],
        lane: 0,
    }
}

fn age_out(
    filled: &mut Vec<bool>,
    dies_at: &mut Vec<u32>,
    arrived: &Vec<bool>,
    tick: u32,
    member_ttl: u32,
)
    requires
        old(dies_at)@.len() == old(filled)@.len(),
        arrived@.len() == old(filled)@.len(),
        tick + member_ttl <= u32::MAX,
    ensures
        final(dies_at)@ == Seq::new(
            old(filled)@.len(),
            |i: int|
                if arrived@[i] {
                    (tick + member_ttl) as u32
                } else {
                    old(dies_at)@[i]
                },
        ),
        final(filled)@ == Seq::new(
            old(filled)@.len(),
            |i: int| old(filled)@[i] && final(dies_at)@[i] > tick,
        ),
{
    let ghost (f0, d0) = (filled@, dies_at@);
    let ghost goal = Seq::new(
        f0.len(),
        |i: int|
            if arrived@[i] {
                (tick + member_ttl) as u32
            } else {
                d0[i]
            },
    );
    let mut i: usize = 0;
    while i < filled.len()
        invariant
            i <= f0.len(),
            filled@.len() == f0.len(),
            dies_at@.len() == f0.len(),
            arrived@.len() == f0.len(),
            d0.len() == f0.len(),
            tick + member_ttl <= u32::MAX,
            goal == Seq::new(
                f0.len(),
                |i: int|
                    if arrived@[i] {
                        (tick + member_ttl) as u32
                    } else {
                        d0[i]
                    },
            ),
            forall|k: int|
                0 <= k < f0.len() ==> #[trigger] dies_at@[k] == if k < i {
                    goal[k]
                } else {
                    d0[k]
                },
            forall|k: int|
                0 <= k < f0.len() ==> #[trigger] filled@[k] == if k < i {
                    f0[k] && goal[k] > tick
                } else {
                    f0[k]
                },
        decreases filled.len() - i,
    {
        if arrived[i] {
            dies_at.set(i, tick + member_ttl);
        }
        if dies_at[i] <= tick {
            filled.set(i, false);
        }
        i = i + 1;
    }
    assert(dies_at@ =~= goal);
    assert(filled@ =~= Seq::new(f0.len(), |i: int| f0[i] && dies_at@[i] > tick));
}

/// A forming run in progress.
#[derive(Clone, Debug)]
pub struct FormingRun {
    colony: Colony,
    budget: u32,
    member_ttl: u32,
    renew: bool,
    tick: u32,
    dies_at: Vec<u32>,
    renewed: Vec<bool>,
    combat: Vec<QueuedSpawn>,
    lane: usize,
}

impl View for FormingRun {
    type V = FormingView;

    closed spec fn view(&self) -> FormingView {
        FormingView {
            colony: self.colony@,
            budget: self.budget,
            member_ttl: self.member_ttl,
            renew: self.renew,
            tick: self.tick,
            dies_at: self.dies_at@,
            renewed: self.renewed@,
            combat: self.combat@,
            lane: self.lane,
        }
    }
}

proof fn lemma_sweep_keeps(v: FormingView, h: int)
    requires
        0 <= h <= v.colony.homes.len(),
    ensures
        v.swept(h).0.colony.homes == v.colony.homes,
        v.swept(h).0.tick == v.tick,
        v.swept(h).0.budget == v.budget,
        v.swept(h).0.combat == v.combat,
        h <= v.swept(h).1 <= v.colony.homes.len(),
    decreases v.colony.homes.len() - h,
{
    if h < v.colony.homes.len() {
        let b = FormingView { colony: v.colony.banked_at(h), ..v };
        if v.tick < v.colony.busy_until[h] {
            lemma_sweep_keeps(b, h + 1);
        } else if let Some(i) = b.renew_pick() {
            lemma_sweep_keeps(b.renewed_at(h, i), h + 1);
        }
    }
}

impl FormingRun {
    /// The run at its first tick, and its first question.
    pub fn start(s: &ColonyFormingScenario) -> (r: (FormingRun, FormingRequest))
        requires
            homes_fit(s.homes@),
            s.budget_ticks + s.member_ttl <= u32::MAX,
            s.budget_ticks + RENEW_THRESHOLD + RENEW_PER_TICK <= u32::MAX,
        ensures
            (r.0@, r.1@) == started(*s).opened(),
            r.0@.wf(),
            !(r.1 is Finished) ==> r.0@.tick < r.0@.budget,
    {
        let mut run = FormingRun {
            colony: Colony::new(s),
            budget: s.budget_ticks,
            member_ttl: s.member_ttl,
            renew: s.renew,
            tick: 0,
            dies_at: no_ticks(s.slots),
            renewed: no_flags(s.slots),
            combat: Vec::new(),
            lane: 0,
        };
        assert(run@ =~= started(*s));
        let first: FormingRequest = run.open_tick();
        (run, first)
    }

    fn open_tick(&mut self) -> (r: FormingRequest)
        requires
            old(self)@.wf(),
        ensures
            (final(self)@, r@) == old(self)@.opened(),
            final(self)@.wf(),
            !(r is Finished) ==> final(self)@.tick < final(self)@.budget,
    {
        if self.tick >= self.budget {
            let filled: usize = self.colony.present();
            return FormingRequest::Finished(
                FormingOutcome::Stalled { filled, of: self.colony.filled.len() },
            );
        }
        let ghost v0 = self@;
        let arrived: Vec<bool> = self.colony.complete(self.tick);
        age_out(
            &mut self.colony.filled,
            &mut self.dies_at,
            &arrived,
            self.tick,
            self.member_ttl,
        );
        assert(self.dies_at@ =~= v0.aged().dies_at);
        assert(self.colony.filled@ =~= v0.aged().colony.filled);
        assert(self@ =~= v0.aged());
        FormingRequest::Ready { present: self.colony.present(), slots: self.colony.filled.len() }
    }

    /// Answer to [`FormingRequest::Ready`].
    pub fn ready_known(&mut self, ready: bool) -> (r: FormingRequest)
        requires
            old(self)@.wf(),
        ensures
            (final(self)@, r@) == old(self)@.ready_known(ready),
            final(self)@ == old(self)@,
    {
        if ready {
            FormingRequest::Finished(FormingOutcome::Completed { ticks: self.tick })
        } else {
            FormingRequest::Field { filled: copied(&self.colony.filled) }
        }
    }

    fn renew_pick(&self) -> (r: Option<usize>)
        requires
            self@.wf(),
        ensures
            match r {
                Some(i) => self@.renew_pick() == Some(i as int) && i < self@.slots()
                    && self@.aging()[i as int],
                None => self@.renew_pick() is None,
            },
    {
        if !self.renew {
            return None;
        }
        let ghost aging = self@.aging();
        let mut best: Option<usize> = None;
        let mut i: usize = 0;
        while i < self.dies_at.len()
            invariant
                self@.wf(),
                aging == self@.aging(),
                i <= self@.slots(),
                match best {
                    Some(b) => soonest(aging.take(i as int), self@.dies_at) == Some(b as int) && b
                        < i && aging[b as int],
                    None => soonest(aging.take(i as int), self@.dies_at) is None,
                },
            decreases self.dies_at.len() - i,
        {
            assert(aging.take(i as int + 1).drop_last() =~= aging.take(i as int));
            let short: bool = self.colony.filled[i] && !self.renewed[i] && ticks_since(
                self.dies_at[i],
                self.tick,
            ) < RENEW_THRESHOLD;
            assert(short == aging[i as int]);
            if short {
                best = match best {
                    None => Some(i),
                    Some(b) => if self.dies_at[i] < self.dies_at[b] {
                        Some(i)
                    } else {
                        Some(b)
                    },
                };
            }
            i = i + 1;
        }
        assert(aging.take(i as int) =~= aging);
        best
    }

    fn next_lane(&mut self) -> (r: FormingRequest)
        requires
            old(self)@.wf(),
            old(self)@.tick < old(self)@.budget,
        ensures
            (final(self)@, r@) == old(self)@.next_lane(),
            final(self)@.wf(),
            !(r is Finished) ==> final(self)@.tick < final(self)@.budget,
            r is RunLane ==> final(self)@.lane < final(self)@.colony.homes.len(),
    {
        let ghost v0 = self@;
        proof {
            lemma_sweep_keeps(v0, v0.lane as int);
        }
        let mut h: usize = self.lane;
        while h < self.colony.homes.len()
            invariant
                v0 == old(self)@,
                self@.wf(),
                h <= self@.colony.homes.len(),
                self@.colony.homes == v0.colony.homes,
                self@.tick == v0.tick,
                self@.tick < self@.budget,
                self@.combat == v0.combat,
                v0.swept(v0.lane as int) == self@.swept(h as int),
                self@.lane == v0.lane,
            decreases self.colony.homes.len() - h,
        {
            let ghost before = self@;
            self.colony.bank(h);
            let ghost b = self@;
            assert(b =~= FormingView { colony: before.colony.banked_at(h as int), ..before });
            if self.tick < self.colony.busy_until[h] {
                assert(before.swept(h as int) == b.swept(h as int + 1));
                h = h + 1;
                continue ;
            }
            match self.renew_pick() {
                Some(i) => {
                    let longer: u32 = self.dies_at[i] + RENEW_PER_TICK;
                    let most: u32 = self.tick + self.member_ttl;
                    self.dies_at.set(
                        i,
                        if longer <= most {
                            longer
                        } else {
                            most
                        },
                    );
                    self.renewed.set(i, true);
                    self.colony.busy_until.set(h, self.tick + 1);
                    assert(self@ =~= b.renewed_at(h as int, i as int));
                    assert(before.swept(h as int) == self@.swept(h as int + 1));
                    h = h + 1;
                },
                None => {
                    assert(before.swept(h as int) == (b, h as int));
                    let queue: Vec<QueuedSpawn> = self.colony.lane_queue(
                        h,
                        self.tick,
                        &self.combat,
                        true,
                    );
                    self.lane = h;
                    assert(self@ =~= v0.next_lane().0);
                    let r = FormingRequest::RunLane(
                        LaneOffer {
                            home: h,
                            available_energy: self.colony.avail[h],
                            energy_capacity: self.colony.homes[h].energy_capacity,
                            queue,
                        },
                    );
                    assert(r@ =~= v0.next_lane().1);
                    return r;
                },
            }
        }
        let ghost v = self@;
        self.tick = self.tick + 1;
        assert(self@ =~= FormingView { tick: (v.tick + 1) as u32, ..v });
        self.open_tick()
    }

    /// Answer to [`FormingRequest::Field`]: the slots to spawn.
    pub fn field_given(&mut self, combat: Vec<QueuedSpawn>) -> (r: FormingRequest)
        requires
            old(self)@.wf(),
            old(self)@.tick < old(self)@.budget,
        ensures
            (final(self)@, r@) == old(self)@.field_given(combat@),
            final(self)@.wf(),
            !(r is Finished) ==> final(self)@.tick < final(self)@.budget,
            r is RunLane ==> final(self)@.lane < final(self)@.colony.homes.len(),
    {
        let ghost v0 = self@;
        self.combat = combat;
        self.lane = 0;
        self.renewed = no_flags(self.colony.filled.len());
        assert(self@ =~= FormingView {
            combat: combat@,
            lane: 0,
            renewed: all_false(v0.slots()),
            ..v0
        });
        self.next_lane()
    }

    /// Answer to [`FormingRequest::RunLane`]: what the lane did.
    pub fn lane_done(&mut self, reply: &LaneReply) -> (r: FormingRequest)
        requires
            old(self)@.wf(),
            old(self)@.tick < old(self)@.budget,
            old(self)@.lane < old(self)@.colony.homes.len(),
            reply_fits(
                *reply,
                old(self)@.tick,
                old(self)@.colony.homes[old(self)@.lane as int].income,
            ),
        ensures
            (final(self)@, r@) == old(self)@.lane_done(*reply),
            final(self)@.wf(),
            !(r is Finished) ==> final(self)@.tick < final(self)@.budget,
            r is RunLane ==> final(self)@.lane < final(self)@.colony.homes.len(),
    {
        let ghost v0 = self@;
        proof {
            lemma_booked_keeps(
                v0.colony,
                v0.lane as int,
                v0.tick,
                reply.available_energy,
                reply.spawned@,
            );
        }
        self.colony.settle(self.lane, self.tick, reply);
        self.lane = self.lane + 1;
        assert(self@ =~= FormingView {
            colony: v0.colony.booked(
                v0.lane as int,
                v0.tick,
                reply.available_energy,
                reply.spawned@,
            ),
            lane: (v0.lane + 1) as usize,
            ..v0
        });
        self.next_lane()
    }
}

// ── What forming is for ────────────────────────────────────────────────────

/// A ready roster is the end of forming, at this tick; one that is not asks for its open
/// slots.
pub proof fn a_ready_roster_has_formed(v: FormingView, ready: bool)
    ensures
        ready ==> v.ready_known(ready).1 == FormingAsk::Finished(
            FormingOutcome::Completed { ticks: v.tick },
        ),
        !ready ==> v.ready_known(ready).1 == (FormingAsk::Field { filled: v.colony.filled }),
        v.ready_known(ready).0 == v,
{
}

/// Readiness is asked with the members present and the whole roster; with the time up the
/// roster stalled at what is there.
pub proof fn readiness_is_asked_of_the_present(v: FormingView)
    requires
        v.colony.filled.len() <= usize::MAX,
    ensures
        v.tick < v.budget ==> (v.opened().1 matches FormingAsk::Ready { present, slots } && slots
            == v.colony.filled.len() && present == count_true(v.opened().0.colony.filled)),
        v.tick >= v.budget ==> v.opened().1 == FormingAsk::Finished(
            FormingOutcome::Stalled {
                filled: count_true(v.colony.filled) as usize,
                of: v.colony.filled.len() as usize,
            },
        ),
        v.opened().0.tick == v.tick,
        v.opened().0.colony.avail == v.colony.avail,
{
}

/// A member whose spawn is done gets a full life; one whose time has come is gone; the
/// others keep theirs.
pub proof fn members_live_their_time(v: FormingView, i: int)
    requires
        v.wf(),
        v.tick < v.budget,
        v.member_ttl > 0,
        0 <= i < v.slots(),
    ensures
        ({
            let a = v.aged();
            let born = exists|j: int|
                0 <= j < v.colony.completing.filter(due_at(v.tick)).len() && (
                #[trigger] v.colony.completing.filter(due_at(v.tick))[j]).0 == i;
            &&& born ==> a.colony.filled[i] && a.dies_at[i] == v.tick + v.member_ttl
            &&& !born ==> a.dies_at[i] == v.dies_at[i]
            &&& !born && v.colony.filled[i] ==> (a.colony.filled[i] <==> v.tick < v.dies_at[i])
            &&& !born && !v.colony.filled[i] ==> !a.colony.filled[i]
        }),
{
}

/// An idle home renews a member only where renewal is on: the one that dies first among
/// those present, not renewed this tick, and with less than a hundred ticks left.
pub proof fn the_first_to_die_is_renewed(v: FormingView, i: int, j: int)
    requires
        v.wf(),
        0 <= j < v.slots(),
    ensures
        !v.renew ==> v.renew_pick() is None,
        v.renew_pick() == Some(i) ==> {
            &&& 0 <= i < v.slots()
            &&& v.renew
            &&& v.colony.filled[i] && !v.renewed[i]
            &&& v.dies_at[i] < v.tick + 100
        },
        v.renew_pick() == Some(i) && v.colony.filled[j] && !v.renewed[j] && v.dies_at[j] < v.tick
            + 100 ==> v.dies_at[i] <= v.dies_at[j],
        v.renew && v.colony.filled[j] && !v.renewed[j] && v.dies_at[j] < v.tick + 100
            ==> v.renew_pick() is Some,
{
    soonest_is_least(v.aging(), v.dies_at);
    assert(v.aging()[j] == (v.colony.filled[j] && !v.renewed[j] && v.dies_at[j] < v.tick + 100));
}

/// A renewal adds twenty ticks up to a full life, counts once a tick, and takes the home's
/// lane for this tick.
pub proof fn a_renewal_takes_its_lane(v: FormingView, h: int, i: int)
    requires
        v.wf(),
        v.tick < v.budget,
        0 <= i < v.slots(),
        0 <= h < v.colony.homes.len(),
        v.dies_at[i] <= u32::MAX - 20,
    ensures
        ({
            let r = v.renewed_at(h, i);
            &&& r.renewed[i]
            &&& v.dies_at[i] + 20 <= v.tick + v.member_ttl ==> r.dies_at[i] == v.dies_at[i] + 20
            &&& v.dies_at[i] + 20 > v.tick + v.member_ttl ==> r.dies_at[i] == v.tick + v.member_ttl
            &&& r.colony.busy_until[h] == v.tick + 1
            &&& r.colony.filled == v.colony.filled
            &&& r.colony.avail == v.colony.avail
        }),
{
}

/// Forming starts on the first tick with an empty roster and full banks.
pub proof fn forming_starts_empty(s: ColonyFormingScenario)
    ensures
        ({
            let v = started(s);
            &&& v.tick == 0
            &&& v.budget == s.budget_ticks
            &&& v.member_ttl == s.member_ttl
            &&& v.renew == s.renew
            &&& v.colony.filled.len() == s.slots
            &&& count_true(v.colony.filled) == 0
            &&& v.colony.homes == s.homes@
        }),
{
    crate::colony::a_colony_starts_idle(s.homes@, s.economy, s.slots as nat);
}

/// The sweep passes busy homes and homes that renew, and stops at the first other one; the
/// lane that is asked to run is an idle one, with its own bank and capacity.
pub proof fn the_lane_that_runs_is_idle(v: FormingView)
    requires
        v.wf(),
        v.next_lane().1 is RunLane,
    ensures
        v.next_lane().1 matches FormingAsk::RunLane { home, energy, capacity, .. } && {
            &&& v.lane <= home < v.colony.homes.len()
            &&& v.tick >= v.next_lane().0.colony.busy_until[home]
            &&& energy == v.next_lane().0.colony.avail[home]
            &&& capacity == v.colony.homes[home].energy_capacity
            &&& v.next_lane().0.lane == home
            &&& v.next_lane().0.renew_pick() is None
        },
{
    lemma_sweep_keeps(v, v.lane as int);
    lemma_sweep_stops_idle(v, v.lane as int);
    let (w, h) = v.swept(v.lane as int);
    if h >= v.colony.homes.len() {
        let n = FormingView { tick: (w.tick + 1) as u32, ..w };
        assert(!(n.opened().1 is RunLane));
    }
}

proof fn lemma_sweep_stops_idle(v: FormingView, h: int)
    requires
        0 <= h <= v.colony.homes.len(),
    ensures
        v.swept(h).1 < v.colony.homes.len() ==> v.tick >= v.swept(h).0.colony.busy_until[v.swept(
            h,
        ).1] && v.swept(h).0.renew_pick() is None,
    decreases v.colony.homes.len() - h,
{
    if h < v.colony.homes.len() {
        let b = FormingView { colony: v.colony.banked_at(h), ..v };
        if v.tick < v.colony.busy_until[h] {
            lemma_sweep_stops_idle(b, h + 1);
        } else if let Some(i) = b.renew_pick() {
            lemma_sweep_stops_idle(b.renewed_at(h, i), h + 1);
        }
    }
}

} // verus!
