//! The colony a squad is fielded from: homes that bank energy, one spawn lane
//! each, and the pipeline a member passes through from spawn to presence.

use vstd::prelude::*;

verus! {

/// Identifiers from here up belong to economy spawns, not to squad slots.
pub const ECON_MINER_ID_BASE: u64 = 1_000_000_000;

pub const ECON_HAULER_ID_BASE: u64 = 2_000_000_000;

/// Ticks between the completion of a spawn and the member's presence.
pub const MEMBER_SYNC_DELAY: u32 = 2;

/// A spawn home.
#[derive(Clone, Copy, Debug, PartialEq, Eq, Structural)]
pub struct Home {
    pub energy_capacity: u32,
    pub income: u32,
    pub start_energy: u32,
}

/// The economy's spawn demand at each home: `(priority, body cost)` of a hauler
/// queued every tick and of a miner queued every `miner_period` ticks. A priority
/// is kept as the bit pattern of its number, since nothing here compares it.
#[derive(Clone, Copy, Debug)]
pub struct EconomyPressure {
    pub hauler: Option<(u32, u32)>,
    pub miner: Option<(u32, u32)>,
    pub miner_period: u32,
}

impl Default for EconomyPressure {
    fn default() -> (r: EconomyPressure)
        ensures
            r == (EconomyPressure { hauler: None, miner: None, miner_period: 0 }),
    {
        EconomyPressure { hauler: None, miner: None, miner_period: 0 }
    }
}

/// Who is fielded, from which homes, against what economy.
#[derive(Clone, Debug)]
pub struct ColonyFormingScenario {
    /// Slots of the composition.
    pub slots: usize,
    pub homes: Vec<Home>,
    pub economy: EconomyPressure,
    /// Bit pattern of the squad's spawn priority.
    pub combat_priority: u32,
    pub per_member_cap: u32,
    pub budget_ticks: u32,
    /// Ticks a member lives.
    pub member_ttl: u32,
    /// Whether aging members are renewed while the squad forms.
    pub renew: bool,
}

/// One entry of a home's spawn queue.
#[derive(Clone, Copy, Debug, PartialEq, Eq, Structural)]
pub struct QueuedSpawn {
    /// Bit pattern of the priority.
    pub priority: u32,
    pub body_cost: u32,
    pub part_count: u32,
    pub id: u64,
}

/// What an idle home's single lane is offered this tick.
#[derive(Clone, Debug)]
pub struct LaneOffer {
    pub home: usize,
    pub available_energy: u32,
    pub energy_capacity: u32,
    pub queue: Vec<QueuedSpawn>,
}

/// A spawn that a lane started.
#[derive(Clone, Copy, Debug, PartialEq, Eq, Structural)]
pub struct SpawnedUnit {
    pub id: u64,
    pub completes_in: u32,
}

/// What a lane did with its offer.
#[derive(Clone, Debug)]
pub struct LaneReply {
    pub available_energy: u32,
    pub spawned: Vec<SpawnedUnit>,
}

// ── Pipeline model ─────────────────────────────────────────────────────────

/// `(slot id, tick)`: something that happens to a slot at a tick.
pub type Timed = (u64, u32);

pub open spec fn due_at(tick: u32) -> spec_fn(Timed) -> bool {
    |e: Timed| e.1 <= tick
}

pub open spec fn pending_at(tick: u32) -> spec_fn(Timed) -> bool {
    |e: Timed| e.1 > tick
}

/// Completed spawns, as they enter the position sync.
pub open spec fn synced_later(done: Seq<Timed>, tick: u32) -> Seq<Timed> {
    Seq::new(done.len(), |j: int| (done[j].0, (tick + MEMBER_SYNC_DELAY) as u32))
}

pub open spec fn names_slot(entries: Seq<Timed>, i: int) -> bool {
    exists|j: int| 0 <= j < entries.len() && (#[trigger] entries[j]).0 == i
}

/// For each slot, whether one of the entries names it.
pub open spec fn arrivals(entries: Seq<Timed>, n: nat) -> Seq<bool> {
    Seq::new(n, |i: int| names_slot(entries, i))
}

/// The slots filled once the named ones have arrived.
pub open spec fn landed(filled: Seq<bool>, entries: Seq<Timed>) -> Seq<bool> {
    Seq::new(filled.len(), |i: int| filled[i] || names_slot(entries, i))
}

/// How many flags are set.
pub open spec fn count_true(s: Seq<bool>) -> nat
    decreases s.len(),
{
    if s.len() == 0 {
        0
    } else {
        count_true(s.drop_last()) + if s.last() {
            1nat
        } else {
            0nat
        }
    }
}

pub open spec fn has_id(entries: Seq<Timed>, id: u64) -> bool {
    exists|j: int| 0 <= j < entries.len() && (#[trigger] entries[j]).0 == id
}

pub open spec fn all_false(n: nat) -> Seq<bool> {
    Seq::new(n, |i: int| false)
}

pub open spec fn zeros(n: nat) -> Seq<u32> {
    Seq::new(n, |i: int| 0u32)
}

// ── Colony model ───────────────────────────────────────────────────────────

/// The colony's state.
#[verifier::ext_equal]
pub struct ColonyView {
    pub homes: Seq<Home>,
    pub economy: EconomyPressure,
    pub filled: Seq<bool>,
    pub completing: Seq<Timed>,
    pub syncing: Seq<Timed>,
    pub avail: Seq<u32>,
    pub busy_until: Seq<u32>,
}

/// A home whose bank cannot outgrow the integer range.
pub open spec fn home_fits(h: Home) -> bool {
    &&& h.energy_capacity + h.income <= u32::MAX
    &&& h.start_energy + h.income <= u32::MAX
}

pub open spec fn homes_fit(homes: Seq<Home>) -> bool {
    &&& homes.len() <= u32::MAX
    &&& forall|h: int| 0 <= h < homes.len() ==> home_fits(#[trigger] homes[h])
}

/// Energy in the bank after one tick's income.
pub open spec fn banked(avail: u32, home: Home) -> u32 {
    if avail + home.income <= home.energy_capacity {
        (avail + home.income) as u32
    } else {
        home.energy_capacity
    }
}

pub open spec fn economy_spawn(demand: (u32, u32), base: u64, tick: u32, h: int) -> QueuedSpawn {
    QueuedSpawn {
        priority: demand.0,
        body_cost: demand.1,
        part_count: if demand.1 / 100 >= 1 {
            demand.1 / 100
        } else {
            1
        },
        id: (base + tick * 100 + h) as u64,
    }
}

pub open spec fn miner_due(e: EconomyPressure, tick: u32) -> bool {
    e.miner is Some && e.miner_period > 0 && tick % e.miner_period == 0
}

/// The economy's entries at home `h`: the miner before the hauler.
pub open spec fn economy_demand(
    e: EconomyPressure,
    tick: u32,
    h: int,
    with_miner: bool,
) -> Seq<QueuedSpawn> {
    let miners: Seq<QueuedSpawn> = if with_miner && miner_due(e, tick) {
        seq![economy_spawn(e.miner->0, ECON_MINER_ID_BASE, tick, h)]
    } else {
        seq![]
    };
    let haulers: Seq<QueuedSpawn> = if e.hauler is Some {
        seq![economy_spawn(e.hauler->0, ECON_HAULER_ID_BASE, tick, h)]
    } else {
        seq![]
    };
    miners + haulers
}

impl ColonyView {
    pub open spec fn wf(self) -> bool {
        &&& homes_fit(self.homes)
        &&& self.avail.len() == self.homes.len()
        &&& self.busy_until.len() == self.homes.len()
        &&& forall|h: int|
            0 <= h < self.homes.len() ==> #[trigger] self.avail[h] + self.homes[h].income
                <= u32::MAX
    }

    pub open spec fn slots(self) -> nat {
        self.filled.len()
    }

    pub open spec fn present(self) -> nat {
        count_true(self.filled)
    }

    /// A spawn of this slot is under way.
    pub open spec fn in_flight(self, id: u64) -> bool {
        has_id(self.completing, id) || has_id(self.syncing, id)
    }

    pub open spec fn idle_slot(self) -> spec_fn(QueuedSpawn) -> bool {
        |q: QueuedSpawn| !self.in_flight(q.id)
    }

    /// A spawn or a position sync is outstanding.
    pub open spec fn pipeline_busy(self) -> bool {
        self.completing.len() > 0 || self.syncing.len() > 0
    }

    pub open spec fn has_members(self) -> bool {
        self.present() > 0 || self.pipeline_busy()
    }

    /// Spawns due complete and start to sync.
    pub open spec fn sync_queue(self, tick: u32) -> Seq<Timed> {
        self.syncing + synced_later(self.completing.filter(due_at(tick)), tick)
    }

    /// The slots whose member becomes present this tick.
    pub open spec fn arriving(self, tick: u32) -> Seq<Timed> {
        self.sync_queue(tick).filter(due_at(tick))
    }

    /// One tick of the pipeline: completed spawns start their sync, finished
    /// syncs fill their slots.
    pub open spec fn advanced(self, tick: u32) -> ColonyView {
        ColonyView {
            completing: self.completing.filter(pending_at(tick)),
            syncing: self.sync_queue(tick).filter(pending_at(tick)),
            filled: landed(self.filled, self.arriving(tick)),
            ..self
        }
    }

    /// The roster is dropped, what was in flight is orphaned, the lanes are freed.
    pub open spec fn refielded(self) -> ColonyView {
        ColonyView {
            filled: all_false(self.filled.len()),
            completing: seq![],
            syncing: seq![],
            busy_until: zeros(self.homes.len()),
            ..self
        }
    }

    pub open spec fn banked_at(self, h: int) -> ColonyView {
        ColonyView { avail: self.avail.update(h, banked(self.avail[h], self.homes[h])), ..self }
    }

    /// The queue a home's lane sees: the economy, then every fielded slot that is
    /// not already under way.
    pub open spec fn lane_queue(
        self,
        h: int,
        tick: u32,
        combat: Seq<QueuedSpawn>,
        with_miner: bool,
    ) -> Seq<QueuedSpawn> {
        economy_demand(self.economy, tick, h, with_miner) + combat.filter(self.idle_slot())
    }

    /// Homes bank in order from `h`, up to and with the first whose lane is idle.
    pub open spec fn scanned(self, tick: u32, h: int) -> (ColonyView, int)
        decreases self.homes.len() - h,
    {
        if h >= self.homes.len() || h < 0 {
            (self, h)
        } else if tick < self.busy_until[h] {
            self.banked_at(h).scanned(tick, h + 1)
        } else {
            (self.banked_at(h), h)
        }
    }

    /// A lane's spawns are booked one after another.
    pub open spec fn booked(
        self,
        h: int,
        tick: u32,
        energy: u32,
        spawned: Seq<SpawnedUnit>,
    ) -> ColonyView
        decreases spawned.len(),
    {
        if spawned.len() == 0 {
            self
        } else {
            let before = self.booked(h, tick, energy, spawned.drop_last());
            let u = spawned.last();
            let at = (tick + u.completes_in) as u32;
            ColonyView {
                avail: before.avail.update(h, energy),
                busy_until: before.busy_until.update(h, at),
                completing: if u.id < ECON_MINER_ID_BASE {
                    before.completing.push((u.id, at))
                } else {
                    before.completing
                },
                ..before
            }
        }
    }
}

/// The reply's times and energy stay in the integer range.
pub open spec fn reply_fits(reply: LaneReply, tick: u32, income: u32) -> bool {
    &&& reply.available_energy + income <= u32::MAX
    &&& forall|j: int|
        0 <= j < reply.spawned@.len() ==> tick + (#[trigger] reply.spawned@[j]).completes_in
            <= u32::MAX
}

// ── Lemmas on filtered prefixes ────────────────────────────────────────────

pub proof fn lemma_filter_take<A>(s: Seq<A>, p: spec_fn(A) -> bool, i: int)
    requires
        0 <= i < s.len(),
    ensures
        s.take(i + 1).filter(p) == if p(s[i]) {
            s.take(i).filter(p).push(s[i])
        } else {
            s.take(i).filter(p)
        },
{
    reveal(Seq::filter);
    let t = s.take(i + 1);
    assert(t.drop_last() =~= s.take(i));
    assert(t.last() == s[i]);
}

pub proof fn lemma_count_take(s: Seq<bool>, i: int)
    requires
        0 <= i < s.len(),
    ensures
        count_true(s.take(i + 1)) == count_true(s.take(i)) + if s[i] {
            1nat
        } else {
            0nat
        },
{
    assert(s.take(i + 1).drop_last() =~= s.take(i));
    assert(s.take(i + 1).last() == s[i]);
}

pub proof fn lemma_count_bound(s: Seq<bool>)
    ensures
        count_true(s) <= s.len(),
    decreases s.len(),
{
    if s.len() > 0 {
        lemma_count_bound(s.drop_last());
    }
}

pub proof fn lemma_scan_keeps(c: ColonyView, tick: u32, h: int)
    requires
        0 <= h <= c.homes.len(),
    ensures
        c.scanned(tick, h).0.homes == c.homes,
        c.scanned(tick, h).0.filled == c.filled,
        c.scanned(tick, h).0.busy_until == c.busy_until,
        h <= c.scanned(tick, h).1 <= c.homes.len(),
    decreases c.homes.len() - h,
{
    if h < c.homes.len() && tick < c.busy_until[h] {
        lemma_scan_keeps(c.banked_at(h), tick, h + 1);
    }
}

pub proof fn lemma_booked_keeps(
    c: ColonyView,
    h: int,
    tick: u32,
    energy: u32,
    spawned: Seq<SpawnedUnit>,
)
    ensures
        c.booked(h, tick, energy, spawned).homes == c.homes,
        c.booked(h, tick, energy, spawned).filled == c.filled,
    decreases spawned.len(),
{
    if spawned.len() > 0 {
        lemma_booked_keeps(c, h, tick, energy, spawned.drop_last());
    }
}

// ── Executable pipeline ────────────────────────────────────────────────────

/// How many flags are set.
pub fn count_flags(v: &Vec<bool>) -> (r: usize)
    ensures
        r == count_true(v@),
{
    let mut n: usize = 0;
    let mut i: usize = 0;
    while i < v.len()
        invariant
            i <= v.len(),
            n <= i,
            n == count_true(v@.take(i as int)),
        decreases v.len() - i,
    {
        proof {
            lemma_count_take(v@, i as int);
        }
        if v[i] {
            n = n + 1;
        }
        i = i + 1;
    }
    assert(v@.take(i as int) =~= v@);
    n
}

fn split_due(v: &Vec<Timed>, tick: u32) -> (r: (Vec<Timed>, Vec<Timed>))
    ensures
        r.0@ == v@.filter(due_at(tick)),
        r.1@ == v@.filter(pending_at(tick)),
{
    let mut due: Vec<Timed> = Vec::new();
    let mut pending: Vec<Timed> = Vec::new();
    let mut i: usize = 0;
    assert(v@.take(0).filter(due_at(tick)) =~= Seq::<Timed>::empty()) by {
        reveal(Seq::filter);
    }
    assert(v@.take(0).filter(pending_at(tick)) =~= Seq::<Timed>::empty()) by {
        reveal(Seq::filter);
    }
    while i < v.len()
        invariant
            i <= v.len(),
            due@ == v@.take(i as int).filter(due_at(tick)),
            pending@ == v@.take(i as int).filter(pending_at(tick)),
        decreases v.len() - i,
    {
        proof {
            lemma_filter_take(v@, due_at(tick), i as int);
            lemma_filter_take(v@, pending_at(tick), i as int);
        }
        let e: Timed = v[i];
        if e.1 <= tick {
            due.push(e);
        } else {
            pending.push(e);
        }
        i = i + 1;
    }
    assert(v@.take(i as int) =~= v@);
    (due, pending)
}

fn flag_arrivals(entries: &Vec<Timed>, n: usize) -> (r: Vec<bool>)
    ensures
        r@ == arrivals(entries@, n as nat),
{
    let mut flags: Vec<bool> = no_flags(n);
    let mut j: usize = 0;
    while j < entries.len()
        invariant
            j <= entries.len(),
            flags@.len() == n,
            forall|i: int|
                0 <= i < n ==> #[trigger] flags@[i] == names_slot(entries@.take(j as int), i),
        decreases entries.len() - j,
    {
        let id: u64 = entries[j].0;
        let ghost before = flags@;
        if id < n as u64 {
            flags.set(id as usize, true);
        }
        assert forall|i: int| 0 <= i < n implies #[trigger] flags@[i] == names_slot(
            entries@.take(j as int + 1),
            i,
        ) by {
            let wide = entries@.take(j as int + 1);
            let narrow = entries@.take(j as int);
            if names_slot(narrow, i) {
                let k = choose|k: int| 0 <= k < narrow.len() && (#[trigger] narrow[k]).0 == i;
                assert(wide[k].0 == i);
            }
            if id == i {
                assert(wide[j as int].0 == i);
            }
            if names_slot(wide, i) {
                let k = choose|k: int| 0 <= k < wide.len() && (#[trigger] wide[k]).0 == i;
                if k < j {
                    assert(narrow[k].0 == i);
                }
            }
            assert(before[i] == names_slot(narrow, i));
        }
        j = j + 1;
    }
    assert(entries@.take(j as int) =~= entries@);
    flags
}

pub fn no_flags(n: usize) -> (r: Vec<bool>)
    ensures
        r@ == all_false(n as nat),
{
    let mut v: Vec<bool> = Vec::new();
    let mut i: usize = 0;
    while i < n
        invariant
            i <= n,
            v@ == all_false(i as nat),
        decreases n - i,
    {
        v.push(false);
        i = i + 1;
    }
    v
}

pub fn no_ticks(n: usize) -> (r: Vec<u32>)
    ensures
        r@ == zeros(n as nat),
{
    let mut v: Vec<u32> = Vec::new();
    let mut i: usize = 0;
    while i < n
        invariant
            i <= n,
            v@ == zeros(i as nat),
        decreases n - i,
    {
        v.push(0);
        i = i + 1;
    }
    v
}

fn mentions(entries: &Vec<Timed>, id: u64) -> (r: bool)
    ensures
        r == has_id(entries@, id),
{
    let mut j: usize = 0;
    while j < entries.len()
        invariant
            j <= entries.len(),
            forall|k: int| 0 <= k < j ==> (#[trigger] entries@[k]).0 != id,
        decreases entries.len() - j,
    {
        if entries[j].0 == id {
            return true;
        }
        j = j + 1;
    }
    false
}

/// The largest energy capacity among the homes, zero without homes.
pub open spec fn best_capacity_of(homes: Seq<Home>) -> u32
    decreases homes.len(),
{
    if homes.len() == 0 {
        0
    } else {
        let rest = best_capacity_of(homes.drop_last());
        if homes.last().energy_capacity >= rest {
            homes.last().energy_capacity
        } else {
            rest
        }
    }
}

/// The largest energy capacity among the homes, zero without homes.
pub fn best_capacity(homes: &Vec<Home>) -> (r: u32)
    ensures
        r == best_capacity_of(homes@),
{
    let mut best: u32 = 0;
    let mut i: usize = 0;
    while i < homes.len()
        invariant
            i <= homes.len(),
            best == best_capacity_of(homes@.take(i as int)),
        decreases homes.len() - i,
    {
        assert(homes@.take(i as int + 1).drop_last() =~= homes@.take(i as int));
        if homes[i].energy_capacity >= best {
            best = homes[i].energy_capacity;
        }
        i = i + 1;
    }
    assert(homes@.take(i as int) =~= homes@);
    best
}

// ── The colony ─────────────────────────────────────────────────────────────

/// Homes, banks, lanes and the member pipeline of one squad.
#[derive(Clone, Debug)]
pub struct Colony {
    pub homes: Vec<Home>,
    pub economy: EconomyPressure,
    pub filled: Vec<bool>,
    pub completing: Vec<Timed>,
    pub syncing: Vec<Timed>,
    pub avail: Vec<u32>,
    pub busy_until: Vec<u32>,
}

impl View for Colony {
    type V = ColonyView;

    open spec fn view(&self) -> ColonyView {
        ColonyView {
            homes: self.homes@,
            economy: self.economy,
            filled: self.filled@,
            completing: self.completing@,
            syncing: self.syncing@,
            avail: self.avail@,
            busy_until: self.busy_until@,
        }
    }
}

/// The colony before its first tick.
pub open spec fn fresh_colony(homes: Seq<Home>, economy: EconomyPressure, slots: nat) -> ColonyView {
    ColonyView {
        homes,
        economy,
        filled: all_false(slots),
        completing: seq![],
        syncing: seq![],
        avail: Seq::new(homes.len(), |h: int| homes[h].start_energy),
        busy_until: zeros(homes.len()),
    }
}

impl Colony {
    pub fn new(s: &ColonyFormingScenario) -> (r: Colony)
        requires
            homes_fit(s.homes@),
        ensures
            r@ == fresh_colony(s.homes@, s.economy, s.slots as nat),
            r@.wf(),
    {
        let mut avail: Vec<u32> = Vec::new();
        let mut homes: Vec<Home> = Vec::new();
        let mut h: usize = 0;
        while h < s.homes.len()
            invariant
                h <= s.homes.len(),
                avail@ == Seq::new(h as nat, |k: int| s.homes@[k].start_energy),
                homes@ == s.homes@.take(h as int),
            decreases s.homes.len() - h,
        {
            avail.push(s.homes[h].start_energy);
            homes.push(s.homes[h]);
            h = h + 1;
        }
        let r = Colony {
            homes,
            economy: s.economy,
            filled: no_flags(s.slots),
            completing: Vec::new(),
            syncing: Vec::new(),
            avail,
            busy_until: no_ticks(s.homes.len()),
        };
        assert(r@ =~= fresh_colony(s.homes@, s.economy, s.slots as nat));
        r
    }

    /// Members present.
    pub fn present(&self) -> (r: usize)
        ensures
            r == self@.present(),
    {
        count_flags(&self.filled)
    }

    /// A spawn or a position sync is outstanding.
    pub fn pipeline_busy(&self) -> (r: bool)
        ensures
            r == self@.pipeline_busy(),
    {
        self.completing.len() > 0 || self.syncing.len() > 0
    }

    /// One tick of the pipeline. The result flags the slots that became present.
    pub fn advance(&mut self, tick: u32) -> (r: Vec<bool>)
        requires
            tick + MEMBER_SYNC_DELAY <= u32::MAX,
        ensures
            final(self)@ == old(self)@.advanced(tick),
            r@ == arrivals(old(self)@.arriving(tick), old(self)@.slots()),
    {
        let (done, still): (Vec<Timed>, Vec<Timed>) = split_due(&self.completing, tick);
        let ghost sync0 = self.syncing@;
        let mut j: usize = 0;
        while j < done.len()
            invariant
                j <= done.len(),
                tick + MEMBER_SYNC_DELAY <= u32::MAX,
                self.syncing@ == sync0 + synced_later(done@, tick).take(j as int),
                self.homes == old(self).homes,
                self.economy == old(self).economy,
                self.filled == old(self).filled,
                self.completing == old(self).completing,
                self.avail == old(self).avail,
                self.busy_until == old(self).busy_until,
            decreases done.len() - j,
        {
            self.syncing.push((done[j].0, tick + MEMBER_SYNC_DELAY));
            j = j + 1;
        }
        assert(synced_later(done@, tick).take(j as int) =~= synced_later(done@, tick));
        let (arrived, waiting): (Vec<Timed>, Vec<Timed>) = split_due(&self.syncing, tick);
        self.completing = still;
        self.syncing = waiting;
        let flags: Vec<bool> = flag_arrivals(&arrived, self.filled.len());
        fill_flagged(&mut self.filled, &flags);
        assert(self@ =~= old(self)@.advanced(tick));
        flags
    }

    /// Spawns due this tick fill their slots at once. The result flags them.
    pub fn complete(&mut self, tick: u32) -> (r: Vec<bool>)
        ensures
            final(self)@ == old(self)@.completed(tick),
            r@ == arrivals(old(self)@.completing.filter(due_at(tick)), old(self)@.slots()),
    {
        let (done, still): (Vec<Timed>, Vec<Timed>) = split_due(&self.completing, tick);
        self.completing = still;
        let flags: Vec<bool> = flag_arrivals(&done, self.filled.len());
        fill_flagged(&mut self.filled, &flags);
        assert(self@ =~= old(self)@.completed(tick));
        flags
    }

    /// Drop the roster and orphan what was in flight.
    pub fn refield(&mut self)
        ensures
            final(self)@ == old(self)@.refielded(),
    {
        self.filled = no_flags(self.filled.len());
        self.completing = Vec::new();
        self.syncing = Vec::new();
        self.busy_until = no_ticks(self.homes.len());
        assert(self@ =~= old(self)@.refielded());
    }

    /// Bank one tick's income at home `h`.
    pub fn bank(&mut self, h: usize)
        requires
            old(self)@.wf(),
            h < old(self)@.homes.len(),
        ensures
            final(self)@ == old(self)@.banked_at(h as int),
            final(self)@.wf(),
    {
        let home: Home = self.homes[h];
        let sum: u32 = self.avail[h] + home.income;
        if sum <= home.energy_capacity {
            self.avail.set(h, sum);
        } else {
            self.avail.set(h, home.energy_capacity);
        }
        assert(self@ =~= old(self)@.banked_at(h as int));
        assert(home_fits(home));
    }

    /// The queue that home `h`'s lane sees.
    pub fn lane_queue(
        &self,
        h: usize,
        tick: u32,
        combat: &Vec<QueuedSpawn>,
        with_miner: bool,
    ) -> (r: Vec<QueuedSpawn>)
        requires
            h <= u32::MAX,
        ensures
            r@ == self@.lane_queue(h as int, tick, combat@, with_miner),
    {
        let mut queue: Vec<QueuedSpawn> = Vec::new();
        if with_miner {
            if let Some(demand) = self.economy.miner {
                if self.economy.miner_period > 0 && tick % self.economy.miner_period == 0 {
                    queue.push(queued_economy(demand, ECON_MINER_ID_BASE, tick, h));
                }
            }
        }
        if let Some(demand) = self.economy.hauler {
            queue.push(queued_economy(demand, ECON_HAULER_ID_BASE, tick, h));
        }
        let ghost demand_q = economy_demand(self@.economy, tick, h as int, with_miner);
        let ghost idle = self@.idle_slot();
        assert(queue@ =~= demand_q);
        assert(combat@.take(0).filter(idle) =~= Seq::<QueuedSpawn>::empty()) by {
            reveal(Seq::filter);
        }
        let mut j: usize = 0;
        while j < combat.len()
            invariant
                j <= combat.len(),
                idle == self@.idle_slot(),
                queue@ == demand_q + combat@.take(j as int).filter(idle),
            decreases combat.len() - j,
        {
            proof {
                lemma_filter_take(combat@, idle, j as int);
            }
            let c: QueuedSpawn = combat[j];
            let flying: bool = mentions(&self.completing, c.id) || mentions(&self.syncing, c.id);
            if !flying {
                queue.push(c);
            }
            j = j + 1;
        }
        assert(combat@.take(j as int) =~= combat@);
        queue
    }

    /// Bank at homes from `start` on until an idle lane is found, and offer it its
    /// queue.
    pub fn next_offer(
        &mut self,
        start: usize,
        tick: u32,
        combat: &Vec<QueuedSpawn>,
        with_miner: bool,
    ) -> (r: Option<LaneOffer>)
        requires
            old(self)@.wf(),
            start <= old(self)@.homes.len(),
        ensures
            final(self)@ == old(self)@.scanned(tick, start as int).0,
            final(self)@.wf(),
            r is None <==> old(self)@.scanned(tick, start as int).1 >= old(self)@.homes.len(),
            r matches Some(o) ==> {
                &&& o.home == old(self)@.scanned(tick, start as int).1
                &&& o.available_energy == final(self)@.avail[o.home as int]
                &&& o.energy_capacity == final(self)@.homes[o.home as int].energy_capacity
                &&& o.queue@ == final(self)@.lane_queue(o.home as int, tick, combat@, with_miner)
            },
    {
        let mut h: usize = start;
        while h < self.homes.len()
            invariant
                self@.wf(),
                h <= self.homes.len(),
                self@.homes == old(self)@.homes,
                self@.scanned(tick, h as int) == old(self)@.scanned(tick, start as int),
            decreases self.homes.len() - h,
        {
            let ghost before = self@;
            self.bank(h);
            if tick < self.busy_until[h] {
                assert(before.scanned(tick, h as int) == self@.scanned(tick, h as int + 1));
                h = h + 1;
                continue ;
            }
            assert(before.scanned(tick, h as int) == (self@, h as int));
            let queue: Vec<QueuedSpawn> = self.lane_queue(h, tick, combat, with_miner);
            return Some(
                LaneOffer {
                    home: h,
                    available_energy: self.avail[h],
                    energy_capacity: self.homes[h].energy_capacity,
                    queue,
                },
            );
        }
        None
    }

    /// Book what home `h`'s lane did with its offer.
    pub fn settle(&mut self, h: usize, tick: u32, reply: &LaneReply)
        requires
            old(self)@.wf(),
            h < old(self)@.homes.len(),
            reply_fits(*reply, tick, old(self)@.homes[h as int].income),
        ensures
            final(self)@ == old(self)@.booked(
                h as int,
                tick,
                reply.available_energy,
                reply.spawned@,
            ),
            final(self)@.wf(),
    {
        let mut j: usize = 0;
        assert(reply.spawned@.take(0) =~= Seq::<SpawnedUnit>::empty());
        while j < reply.spawned.len()
            invariant
                j <= reply.spawned.len(),
                h < self@.homes.len(),
                self@.wf(),
                self@.homes == old(self)@.homes,
                reply_fits(*reply, tick, old(self)@.homes[h as int].income),
                self@ == old(self)@.booked(
                    h as int,
                    tick,
                    reply.available_energy,
                    reply.spawned@.take(j as int),
                ),
            decreases reply.spawned.len() - j,
        {
            assert(reply.spawned@.take(j as int + 1).drop_last() =~= reply.spawned@.take(
                j as int,
            ));
            let u: SpawnedUnit = reply.spawned[j];
            let at: u32 = tick + u.completes_in;
            self.avail.set(h, reply.available_energy);
            self.busy_until.set(h, at);
            if u.id < ECON_MINER_ID_BASE {
                self.completing.push((u.id, at));
            }
            j = j + 1;
            assert(self@ =~= old(self)@.booked(
                h as int,
                tick,
                reply.available_energy,
                reply.spawned@.take(j as int),
            ));
        }
        assert(reply.spawned@.take(j as int) =~= reply.spawned@);
    }
}

impl ColonyView {
    /// Spawns due this tick fill their slots at once.
    pub open spec fn completed(self, tick: u32) -> ColonyView {
        ColonyView {
            completing: self.completing.filter(pending_at(tick)),
            filled: landed(self.filled, self.completing.filter(due_at(tick))),
            ..self
        }
    }
}

fn queued_economy(demand: (u32, u32), base: u64, tick: u32, h: usize) -> (r: QueuedSpawn)
    requires
        h <= u32::MAX,
        base <= ECON_HAULER_ID_BASE,
    ensures
        r == economy_spawn(demand, base, tick, h as int),
{
    let whole: u32 = demand.1 / 100;
    QueuedSpawn {
        priority: demand.0,
        body_cost: demand.1,
        part_count: if whole >= 1 { whole } else { 1 },
        id: base + tick as u64 * 100 + h as u64,
    }
}

fn fill_flagged(filled: &mut Vec<bool>, flags: &Vec<bool>)
    requires
        old(filled)@.len() == flags@.len(),
    ensures
        final(filled)@ == Seq::new(
            old(filled)@.len(),
            |i: int| old(filled)@[i] || flags@[i],
        ),
{
    let mut i: usize = 0;
    let ghost before = filled@;
    while i < flags.len()
        invariant
            i <= flags.len(),
            filled@.len() == flags@.len(),
            before.len() == flags@.len(),
            forall|k: int| 0 <= k < i ==> #[trigger] filled@[k] == (before[k] || flags@[k]),
            forall|k: int| i <= k < filled@.len() ==> #[trigger] filled@[k] == before[k],
        decreases flags.len() - i,
    {
        if flags[i] {
            filled.set(i, true);
        }
        i = i + 1;
    }
    assert(filled@ =~= Seq::new(before.len(), |i: int| before[i] || flags@[i]));
}

// ── What the colony keeps ──────────────────────────────────────────────────

/// A roster that is dropped leaves nobody at home and nothing under way; the banks, the homes
/// and the size of the roster stay.
pub proof fn refielding_drops_the_roster(c: ColonyView)
    ensures
        ({
            let r = c.refielded();
            &&& r.filled.len() == c.filled.len()
            &&& forall|i: int| 0 <= i < r.filled.len() ==> !#[trigger] r.filled[i]
            &&& r.completing.len() == 0
            &&& r.syncing.len() == 0
            &&& r.avail == c.avail
            &&& r.homes == c.homes
            &&& r.economy == c.economy
            &&& r.busy_until.len() == c.homes.len()
            &&& forall|h: int| 0 <= h < r.busy_until.len() ==> #[trigger] r.busy_until[h] == 0
        }),
{
}

/// Where nothing is under way, a tick of the pipeline changes nobody's presence.
pub proof fn an_idle_pipeline_stays_idle(c: ColonyView, tick: u32)
    requires
        c.completing.len() == 0,
        c.syncing.len() == 0,
    ensures
        c.advanced(tick).filled == c.filled,
        c.advanced(tick).completing.len() == 0,
        c.advanced(tick).syncing.len() == 0,
        c.advanced(tick).avail == c.avail,
{
    reveal(Seq::filter);
    assert(c.sync_queue(tick) =~= seq![]);
    assert(c.advanced(tick).filled =~= c.filled);
}

/// A bank takes its income up to the capacity, and no more.
pub proof fn a_bank_fills_to_its_capacity(avail: u32, home: Home)
    requires
        avail + home.income <= u32::MAX,
    ensures
        banked(avail, home) <= home.energy_capacity,
        avail + home.income <= home.energy_capacity ==> banked(avail, home) == avail + home.income,
        avail + home.income > home.energy_capacity ==> banked(avail, home) == home.energy_capacity,
{
}

/// The economy asks for a hauler every tick, and for a miner in front of it on the ticks
/// that its period divides; nothing else.
pub proof fn economy_asks_in_its_rhythm(e: EconomyPressure, tick: u32, h: int, with_miner: bool)
    ensures
        ({
            let d = economy_demand(e, tick, h, with_miner);
            let mines = with_miner && e.miner is Some && e.miner_period > 0 && tick
                % e.miner_period == 0;
            &&& d.len() == (if mines {
                1int
            } else {
                0
            }) + (if e.hauler is Some {
                1int
            } else {
                0
            })
            &&& mines ==> d[0].priority == (e.miner->0).0 && d[0].body_cost == (e.miner->0).1
            &&& e.hauler is Some ==> d.last().priority == (e.hauler->0).0 && d.last().body_cost
                == (e.hauler->0).1
        }),
{
}

/// A body of the economy has a part per hundred energy, and at least one.
pub proof fn economy_bodies_have_their_parts(d: (u32, u32), base: u64, tick: u32, h: int)
    ensures
        economy_spawn(d, base, tick, h).part_count >= 1,
        d.1 >= 100 ==> 100 * economy_spawn(d, base, tick, h).part_count <= d.1 < 100
            * economy_spawn(d, base, tick, h).part_count + 100,
{
}

proof fn lemma_filter_has<A>(s: Seq<A>, p: spec_fn(A) -> bool, x: A)
    ensures
        s.filter(p).contains(x) <==> s.contains(x) && p(x),
    decreases s.len(),
{
    reveal(Seq::filter);
    if s.len() > 0 {
        let t = s.drop_last();
        lemma_filter_has(t, p, x);
        let f = t.filter(p);
        if p(s.last()) {
            let g = f.push(s.last());
            assert(s.filter(p) == g);
            if f.contains(x) {
                let i = choose|i: int| 0 <= i < f.len() && f[i] == x;
                assert(g[i] == x);
            }
            assert(g[f.len() as int] == s.last());
            if g.contains(x) {
                let i = choose|i: int| 0 <= i < g.len() && g[i] == x;
                if i < f.len() {
                    assert(f[i] == x);
                } else {
                    assert(s[s.len() - 1] == x);
                }
            }
        }
        if t.contains(x) {
            let i = choose|i: int| 0 <= i < t.len() && t[i] == x;
            assert(s[i] == x);
        }
        if s.contains(x) {
            let i = choose|i: int| 0 <= i < s.len() && s[i] == x;
            if i < t.len() {
                assert(t[i] == x);
            }
        }
    }
}

/// A spawn that is done waits for its position; one that is not stays under way. Nothing is
/// lost and nothing comes early.
pub proof fn spawns_pass_through_the_sync(c: ColonyView, tick: u32, e: Timed)
    requires
        c.completing.contains(e),
        tick + MEMBER_SYNC_DELAY <= u32::MAX,
    ensures
        e.1 > tick ==> c.advanced(tick).completing.contains(e),
        e.1 <= tick ==> c.sync_queue(tick).contains((e.0, (tick + MEMBER_SYNC_DELAY) as u32)),
        MEMBER_SYNC_DELAY == 2,
        e.1 <= tick ==> !c.advanced(tick).completing.contains(e),
{
    lemma_filter_has(c.completing, pending_at(tick), e);
    lemma_filter_has(c.completing, due_at(tick), e);
    if e.1 <= tick {
        let done = c.completing.filter(due_at(tick));
        let j = choose|j: int| 0 <= j < done.len() && done[j] == e;
        let later = synced_later(done, tick);
        assert(later[j] == (e.0, (tick + MEMBER_SYNC_DELAY) as u32));
        assert(c.sync_queue(tick)[c.syncing.len() + j] == later[j]);
    }
}

/// A member stands in its slot from the tick on in which its position is known, and whoever
/// was there stays.
pub proof fn members_arrive_when_synced(c: ColonyView, tick: u32, e: Timed, i: int)
    requires
        0 <= i < c.filled.len(),
    ensures
        c.filled[i] ==> c.advanced(tick).filled[i],
        c.sync_queue(tick).contains(e) && e.0 == i && e.1 <= tick ==> c.advanced(tick).filled[i],
        c.sync_queue(tick).contains(e) && e.1 > tick ==> c.advanced(tick).syncing.contains(e),
        c.advanced(tick).filled[i] && !c.filled[i] ==> exists|x: Timed|
            #[trigger] c.sync_queue(tick).contains(x) && x.0 == i && x.1 <= tick,
        c.advanced(tick).filled.len() == c.filled.len(),
        c.advanced(tick).avail == c.avail,
        c.advanced(tick).busy_until == c.busy_until,
{
    let q = c.sync_queue(tick);
    lemma_filter_has(q, due_at(tick), e);
    lemma_filter_has(q, pending_at(tick), e);
    let due = c.arriving(tick);
    if due.contains(e) {
        let j = choose|j: int| 0 <= j < due.len() && due[j] == e;
        assert(due[j].0 == e.0);
    }
    if c.advanced(tick).filled[i] && !c.filled[i] {
        let j = choose|j: int| 0 <= j < due.len() && (#[trigger] due[j]).0 == i;
        let x = due[j];
        assert(due.contains(x));
        lemma_filter_has(q, due_at(tick), x);
        assert(q.contains(x));
    }
}

/// A lane's queue holds the economy's entries first, and behind them exactly the fielded
/// slots that are not under way yet.
pub proof fn a_slot_is_spawned_once(
    c: ColonyView,
    h: int,
    tick: u32,
    combat: Seq<QueuedSpawn>,
    with_miner: bool,
    q: QueuedSpawn,
)
    requires
        combat.contains(q),
    ensures
        ({
            let lead = economy_demand(c.economy, tick, h, with_miner);
            let all = c.lane_queue(h, tick, combat, with_miner);
            let busy = has_id(c.completing, q.id) || has_id(c.syncing, q.id);
            &&& all.take(lead.len() as int) == lead
            &&& all.skip(lead.len() as int).contains(q) <==> !busy
        }),
{
    let lead = economy_demand(c.economy, tick, h, with_miner);
    let all = c.lane_queue(h, tick, combat, with_miner);
    assert(all.take(lead.len() as int) =~= lead);
    assert(all.skip(lead.len() as int) =~= combat.filter(c.idle_slot()));
    lemma_filter_has(combat, c.idle_slot(), q);
}

/// The scan for a free lane passes only busy homes and stops at an idle one, and every home
/// that it passes or stops at banks its income once.
pub proof fn scan_stops_at_the_first_free_lane(c: ColonyView, tick: u32, h: int, k: int)
    requires
        0 <= h <= c.homes.len(),
        c.avail.len() == c.homes.len(),
        c.busy_until.len() == c.homes.len(),
        0 <= k < c.homes.len(),
    ensures
        ({
            let (d, at) = c.scanned(tick, h);
            &&& h <= at <= c.homes.len()
            &&& h <= k < at ==> tick < c.busy_until[k]
            &&& at < c.homes.len() ==> tick >= c.busy_until[at]
            &&& h <= k <= at ==> d.avail[k] == banked(c.avail[k], c.homes[k])
            &&& k < h || k > at ==> d.avail[k] == c.avail[k]
            &&& d.busy_until == c.busy_until
            &&& d.filled == c.filled
            &&& d.homes == c.homes
            &&& d.completing == c.completing
            &&& d.syncing == c.syncing
        }),
    decreases c.homes.len() - h,
{
    if h < c.homes.len() && tick < c.busy_until[h] {
        scan_stops_at_the_first_free_lane(c.banked_at(h), tick, h + 1, k);
    }
}

/// One spawn takes the lane until it is done and leaves the bank that the lane reports. A
/// slot's spawn is under way from then on; the economy's is nobody's member.
pub proof fn a_spawn_takes_its_lane(
    c: ColonyView,
    h: int,
    tick: u32,
    energy: u32,
    u: SpawnedUnit,
)
    requires
        0 <= h < c.homes.len(),
        c.avail.len() == c.homes.len(),
        c.busy_until.len() == c.homes.len(),
        tick + u.completes_in <= u32::MAX,
    ensures
        ({
            let d = c.booked(h, tick, energy, seq![u]);
            &&& d.avail == c.avail.update(h, energy)
            &&& d.busy_until == c.busy_until.update(h, (tick + u.completes_in) as u32)
            &&& u.id < ECON_MINER_ID_BASE ==> d.completing == c.completing.push(
                (u.id, (tick + u.completes_in) as u32),
            )
            &&& u.id >= ECON_MINER_ID_BASE ==> d.completing == c.completing
            &&& d.filled == c.filled
            &&& d.syncing == c.syncing
        }),
        c.booked(h, tick, energy, seq![]) == c,
{
    reveal_with_fuel(ColonyView::booked, 2);
    assert(seq![u].drop_last() =~= seq![]);
}

/// A colony starts with an empty roster, full of what its homes start with, and idle.
pub proof fn a_colony_starts_idle(homes: Seq<Home>, e: EconomyPressure, n: nat)
    ensures
        ({
            let c = fresh_colony(homes, e, n);
            &&& c.filled.len() == n
            &&& count_true(c.filled) == 0
            &&& c.completing.len() == 0 && c.syncing.len() == 0
            &&& c.avail.len() == homes.len()
            &&& forall|h: int| 0 <= h < homes.len() ==> #[trigger] c.avail[h]
                == homes[h].start_energy
            &&& forall|h: int| 0 <= h < homes.len() ==> #[trigger] c.busy_until[h] == 0
        }),
{
    lemma_none_is_none(all_false(n));
}

proof fn lemma_none_is_none(s: Seq<bool>)
    requires
        forall|i: int| 0 <= i < s.len() ==> !#[trigger] s[i],
    ensures
        count_true(s) == 0,
    decreases s.len(),
{
    if s.len() > 0 {
        assert(!s[s.len() - 1]);
        assert forall|i: int| 0 <= i < s.drop_last().len() implies !#[trigger] s.drop_last()[i] by {
            assert(!s[i]);
        }
        lemma_none_is_none(s.drop_last());
    }
}

/// The count of flags adds up over parts, and one flag counts for one.
pub proof fn flags_add_up(a: Seq<bool>, b: Seq<bool>)
    ensures
        count_true(a + b) == count_true(a) + count_true(b),
        count_true(seq![true]) == 1,
        count_true(seq![false]) == 0,
    decreases b.len(),
{
    reveal_with_fuel(count_true, 2);
    if b.len() == 0 {
        assert(a + b =~= a);
    } else {
        flags_add_up(a, b.drop_last());
        assert((a + b).drop_last() =~= a + b.drop_last());
    }
}

/// The best capacity is a home's own, and no home has more.
pub proof fn best_capacity_is_the_best(homes: Seq<Home>)
    ensures
        forall|i: int|
            0 <= i < homes.len() ==> (#[trigger] homes[i]).energy_capacity <= best_capacity_of(
                homes,
            ),
        homes.len() == 0 ==> best_capacity_of(homes) == 0,
        homes.len() > 0 ==> exists|i: int|
            0 <= i < homes.len() && (#[trigger] homes[i]).energy_capacity == best_capacity_of(
                homes,
            ),
    decreases homes.len(),
{
    if homes.len() > 0 {
        let d = homes.drop_last();
        best_capacity_is_the_best(d);
        let n = homes.len() - 1;
        assert(homes[n] == homes.last());
        assert forall|i: int| 0 <= i < homes.len() implies (
        #[trigger] homes[i]).energy_capacity <= best_capacity_of(homes) by {
            if i < n {
                assert(homes[i] == d[i]);
            }
        }
        if homes.last().energy_capacity < best_capacity_of(d) {
            let i = choose|i: int|
                0 <= i < d.len() && (#[trigger] d[i]).energy_capacity == best_capacity_of(d);
            assert(homes[i] == d[i]);
        }
    }
}

/// The economy's spawns have ids of their own, miners' below haulers': by the tick and the home.
/// Each costs what is demanded of it and has a part for every hundred of energy.
pub proof fn the_economy_has_its_own_ids(e: EconomyPressure, tick: u32, h: int)
    requires
        0 <= h < 100,
        tick <= 1_000_000,
    ensures
        e.hauler is Some ==> {
            let q = economy_demand(e, tick, h, false);
            &&& q.len() == 1
            &&& q[0].id == 2_000_000_000 + 100 * tick + h
            &&& q[0].priority == (e.hauler->0).0
            &&& q[0].body_cost == (e.hauler->0).1
            &&& q[0].part_count >= 1
            &&& q[0].body_cost >= 100 ==> 100 * q[0].part_count <= q[0].body_cost < 100
                * q[0].part_count + 100
        },
        e.hauler is None ==> economy_demand(e, tick, h, false).len() == 0,
        e.miner is Some && e.miner_period > 0 && tick % e.miner_period == 0 ==> {
            let q = economy_demand(e, tick, h, true);
            &&& q[0].id == 1_000_000_000 + 100 * tick + h
            &&& q[0].priority == (e.miner->0).0
            &&& q[0].body_cost == (e.miner->0).1
            &&& e.hauler is Some ==> q.len() == 2 && q[1] == economy_demand(e, tick, h, false)[0]
            &&& e.hauler is None ==> q.len() == 1
        },
        e.miner is None || e.miner_period == 0 || tick % e.miner_period != 0 ==> economy_demand(
            e,
            tick,
            h,
            true,
        ) == economy_demand(e, tick, h, false),
{
}

} // verus!
