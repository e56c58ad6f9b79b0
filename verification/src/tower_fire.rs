//! Squad and tower fire together: a target that heals itself, the ticks that it takes
//! to kill it, and whether both sources together beat either alone.

use crate::colony::lemma_filter_take;
use crate::generate::base_room;
use crate::position::{tile_range, WPos};
use crate::profile::{lemma_total_bound, total};
use crate::raid::{hostile, hostiles, TowerOrder};
use crate::siege::{CombatAction, Order};
use crate::world::{pos_in, tile_in, CombatWorld, PlayerId, SimCreep, SimTower};
use vstd::prelude::*;

verus! {

/// The target's id.
pub const TARGET_ID: u32 = 100;

/// Ticks within which the target is to be killed.
pub const MAX_TICKS: u32 = 400;

/// Hits, and the powers per tick, of one body part.
pub const PART_HITS: u32 = 100;

pub const RANGED_PART: u32 = 10;

pub const HEAL_PART: u32 = 12;

pub open spec fn target_at(pos: WPos, heal_parts: int, other_parts: int) -> SimCreep {
    SimCreep {
        id: TARGET_ID,
        owner: 1,
        pos,
        hits: ((heal_parts + other_parts) * 100) as u32,
        hits_max: ((heal_parts + other_parts) * 100) as u32,
        attack_power: 0,
        ranged_attack_power: 0,
        heal_power: (heal_parts * 12) as u32,
        dismantle_power: 0,
    }
}

pub open spec fn defender_at(i: int, ra_parts: int) -> SimCreep {
    SimCreep {
        id: (1 + i) as u32,
        owner: 0,
        pos: tile_in(base_room(), 20 + i, 20),
        hits: (ra_parts * 200) as u32,
        hits_max: (ra_parts * 200) as u32,
        attack_power: 0,
        ranged_attack_power: (ra_parts * 10) as u32,
        heal_power: 0,
        dismantle_power: 0,
    }
}

/// A target that never strikes: it only takes hits and heals itself.
pub fn healy_target(pos: WPos, heal_parts: u32, other_parts: u32) -> (c: SimCreep)
    requires
        (heal_parts + other_parts) * PART_HITS <= u32::MAX,
    ensures
        c == target_at(pos, heal_parts as int, other_parts as int),
{
    let hits: u32 = (heal_parts + other_parts) * PART_HITS;
    SimCreep {
        id: TARGET_ID,
        owner: 1,
        pos,
        hits,
        hits_max: hits,
        attack_power: 0,
        ranged_attack_power: 0,
        heal_power: heal_parts * HEAL_PART,
        dismantle_power: 0,
    }
}

/// A file of shooters, each with a moving part to every shooting one.
pub fn defender_creeps(count: u32, ra_parts: u32) -> (r: Vec<SimCreep>)
    requires
        count <= 30,
        2 * ra_parts * PART_HITS <= u32::MAX,
    ensures
        r@ == Seq::new(count as nat, |i: int| defender_at(i, ra_parts as int)),
{
    let ghost want = Seq::new(count as nat, |i: int| defender_at(i, ra_parts as int));
    let mut out: Vec<SimCreep> = Vec::new();
    let mut i: u32 = 0;
    while i < count
        invariant
            i <= count <= 30,
            2 * ra_parts * PART_HITS <= u32::MAX,
            want == Seq::new(count as nat, |k: int| defender_at(k, ra_parts as int)),
            out@ == want.take(i as int),
        decreases count - i,
    {
        let hits: u32 = 2 * ra_parts * PART_HITS;
        out.push(
            SimCreep {
                id: 1 + i,
                owner: 0,
                pos: pos_in((-2, -2), 20 + i as u8, 20),
                hits,
                hits_max: hits,
                attack_power: 0,
                ranged_attack_power: ra_parts * RANGED_PART,
                heal_power: 0,
                dismantle_power: 0,
            },
        );
        i = i + 1;
        assert(out@ =~= want.take(i as int));
    }
    assert(out@ =~= want);
    out
}

pub open spec fn far_tower() -> SimTower {
    SimTower {
        id: 200,
        owner: 0,
        pos: tile_in(base_room(), 25, 45),
        energy: 100_000,
        hits: 3000,
    }
}

/// One tower, far enough from the target to hit it at its weakest.
pub fn defender_towers() -> (r: Vec<SimTower>)
    ensures
        r@ == seq![far_tower()],
{
    let mut out: Vec<SimTower> = Vec::new();
    out.push(
        SimTower {
            id: 200,
            owner: 0,
            pos: pos_in((-2, -2), 25, 45),
            energy: 100_000,
            hits: 3000,
        },
    );
    assert(out@ =~= seq![far_tower()]);
    out
}

/// The world of one measurement: the target, with or without the squad and the tower.
pub fn u7_world(squad: bool, towers: bool) -> (w: CombatWorld)
    ensures
        w.creeps@ == (if squad {
            Seq::new(3, |i: int| defender_at(i, 7))
        } else {
            seq![]
        }).push(target_at(tile_in(base_room(), 25, 25), 20, 10)),
        w.towers@ == if towers {
            seq![far_tower()]
        } else {
            seq![]
        },
        w.structures@ == Seq::<crate::world::SimStructure>::empty(),
        w.controllers@ == Seq::<crate::world::SimController>::empty(),
        w.safe_mode_owner is None,
        w.wf(),
{
    let mut creeps: Vec<SimCreep> = if squad {
        defender_creeps(3, 7)
    } else {
        Vec::new()
    };
    creeps.push(healy_target(pos_in((-2, -2), 25, 25), 20, 10));
    let guns: Vec<SimTower> = if towers {
        defender_towers()
    } else {
        Vec::new()
    };
    let ghost squad_part: Seq<SimCreep> = if squad {
        Seq::new(3, |i: int| defender_at(i, 7))
    } else {
        seq![]
    };
    assert(creeps@ =~= squad_part.push(target_at(tile_in(base_room(), 25, 25), 20, 10)));
    CombatWorld {
        creeps,
        structures: Vec::new(),
        towers: guns,
        controllers: Vec::new(),
        safe_mode_owner: None,
    }
}

/// The creep with this id lives.
pub open spec fn lives(w: CombatWorld, id: u32) -> bool {
    exists|i: int|
        0 <= i < w.creeps@.len() && (#[trigger] w.creeps@[i]).id == id && w.creeps@[i].alive()
}

/// Whether the creep with this id lives.
pub fn is_living(world: &CombatWorld, id: u32) -> (r: bool)
    ensures
        r == lives(*world, id),
{
    let mut i: usize = 0;
    while i < world.creeps.len()
        invariant
            i <= world.creeps@.len(),
            forall|k: int|
                0 <= k < i ==> !((#[trigger] world.creeps@[k]).id == id
                    && world.creeps@[k].alive()),
        decreases world.creeps.len() - i,
    {
        if world.creeps[i].id == id && world.creeps[i].is_alive() {
            return true;
        }
        i = i + 1;
    }
    false
}

/// The target heals itself for as long as it lives.
pub fn target_self_heal(world: &CombatWorld) -> (r: Option<Order>)
    ensures
        r == if lives(*world, TARGET_ID) {
            Some(Order { creep: TARGET_ID, action: CombatAction::Heal(TARGET_ID) })
        } else {
            None
        },
        r matches Some(o) ==> o.creep == 100 && o.action == CombatAction::Heal(100),
        r is Some <==> lives(*world, 100),
{
    if is_living(world, TARGET_ID) {
        Some(Order { creep: TARGET_ID, action: CombatAction::Heal(TARGET_ID) })
    } else {
        None
    }
}

/// Counts the ticks until the target dies.
#[derive(Clone, Copy, Debug, PartialEq, Eq, Structural)]
pub struct KillWatch {
    pub max_ticks: u32,
    /// Ticks gone by.
    pub tick: u32,
}

/// Where a measurement stands.
#[derive(Clone, Copy, Debug, PartialEq, Eq, Structural)]
pub enum KillStep {
    Running,
    /// Killed in this many ticks.
    Killed(u32),
    Survived,
}

impl KillStep {
    pub open spec fn as_ticks(self) -> Option<u32> {
        match self {
            KillStep::Killed(t) => Some(t),
            _ => None,
        }
    }

    /// The ticks to the kill, if there was one.
    pub fn ticks(self) -> (r: Option<u32>)
        ensures
            r == self.as_ticks(),
    {
        match self {
            KillStep::Killed(t) => Some(t),
            _ => None,
        }
    }
}

impl KillWatch {
    pub open spec fn wf(self) -> bool {
        self.tick < self.max_ticks
    }

    pub open spec fn after(self, target_lives: bool) -> (KillWatch, KillStep) {
        let w = KillWatch { tick: (self.tick + 1) as u32, ..self };
        (
            w,
            if !target_lives {
                KillStep::Killed(w.tick)
            } else if w.tick >= w.max_ticks {
                KillStep::Survived
            } else {
                KillStep::Running
            },
        )
    }

    /// A measurement over at most so many ticks.
    pub fn start(max_ticks: u32) -> (r: (KillWatch, KillStep))
        ensures
            r.0 == (KillWatch { max_ticks, tick: 0 }),
            r.1 == if max_ticks == 0 {
                KillStep::Survived
            } else {
                KillStep::Running
            },
            r.1 is Running ==> r.0.wf(),
    {
        let w = KillWatch { max_ticks, tick: 0 };
        if max_ticks == 0 {
            (w, KillStep::Survived)
        } else {
            (w, KillStep::Running)
        }
    }

    /// Takes the world that a tick left.
    pub fn next(&mut self, world: &CombatWorld) -> (r: KillStep)
        requires
            old(self).wf(),
        ensures
            (*final(self), r) == old(self).after(lives(*world, TARGET_ID)),
            r is Running ==> final(self).wf(),
    {
        self.tick = self.tick + 1;
        if !is_living(world, TARGET_ID) {
            KillStep::Killed(self.tick)
        } else if self.tick >= self.max_ticks {
            KillStep::Survived
        } else {
            KillStep::Running
        }
    }
}

/// A kill is reported within the limit, and the watch stops at the limit.
pub proof fn watch_keeps_its_limit(w: KillWatch, target_lives: bool)
    requires
        w.wf(),
    ensures
        w.after(target_lives).1 matches KillStep::Killed(t) ==> 1 <= t <= w.max_ticks,
        w.after(target_lives).1 is Running ==> w.after(target_lives).0.wf(),
        w.tick + 1 == w.max_ticks ==> w.after(target_lives).1 !is Running,
{
}

pub open spec fn standing(owner: PlayerId) -> spec_fn(SimTower) -> bool {
    |t: SimTower| t.alive() && t.owner == owner
}

/// The first of the creeps nearest to a tile.
pub open spec fn nearest_creep(s: Seq<SimCreep>, from: WPos) -> Option<SimCreep>
    decreases s.len(),
{
    if s.len() == 0 {
        None
    } else {
        match nearest_creep(s.drop_last(), from) {
            Some(n) if from.tiles_to(n.pos) <= from.tiles_to(s.last().pos) => Some(n),
            _ => Some(s.last()),
        }
    }
}

/// The nearest creep is nearest.
pub proof fn nearest_creep_is_nearest(s: Seq<SimCreep>, from: WPos, i: int)
    requires
        0 <= i < s.len(),
    ensures
        nearest_creep(s, from) matches Some(n) && s.contains(n) && from.tiles_to(n.pos)
            <= from.tiles_to(s[i].pos),
    decreases s.len(),
{
    if s.len() > 1 {
        let init = s.drop_last();
        let at = if i < init.len() {
            i
        } else {
            0
        };
        nearest_creep_is_nearest(init, from, at);
        let n = nearest_creep(init, from)->0;
        let k = choose|k: int| 0 <= k < init.len() && init[k] == n;
        assert(s[k] == n);
        assert(s[s.len() - 1] == s.last());
    } else {
        assert(s.drop_last().len() == 0);
        assert(nearest_creep(s.drop_last(), from) is None);
        assert(s[0] == s.last());
    }
}

/// Each tower fires at the enemy nearest to it.
pub open spec fn nearest_orders(towers: Seq<SimTower>, enemies: Seq<SimCreep>) -> Seq<TowerOrder>
    decreases towers.len(),
{
    if towers.len() == 0 {
        seq![]
    } else {
        let before = nearest_orders(towers.drop_last(), enemies);
        match nearest_creep(enemies, towers.last().pos) {
            Some(c) => before.push(TowerOrder { tower: towers.last().id, target: c.id }),
            None => before,
        }
    }
}

fn standing_towers(world: &CombatWorld, owner: PlayerId) -> (r: Vec<SimTower>)
    ensures
        r@ == world.towers@.filter(standing(owner)),
        world.wf() ==> forall|i: int| 0 <= i < r@.len() ==> (#[trigger] r@[i]).pos.in_world(),
{
    let mut out: Vec<SimTower> = Vec::new();
    let mut i: usize = 0;
    proof {
        reveal(Seq::filter);
        assert(world.towers@.take(0) =~= Seq::<SimTower>::empty());
    }
    while i < world.towers.len()
        invariant
            i <= world.towers@.len(),
            out@ == world.towers@.take(i as int).filter(standing(owner)),
            world.wf() ==> forall|k: int|
                0 <= k < out@.len() ==> (#[trigger] out@[k]).pos.in_world(),
        decreases world.towers.len() - i,
    {
        proof {
            lemma_filter_take(world.towers@, standing(owner), i as int);
        }
        let t: SimTower = world.towers[i];
        if t.is_alive() && t.owner == owner {
            out.push(t);
        }
        i = i + 1;
    }
    assert(world.towers@.take(i as int) =~= world.towers@);
    out
}

fn find_nearest(s: &Vec<SimCreep>, from: WPos) -> (r: Option<SimCreep>)
    requires
        from.in_world(),
        forall|i: int| 0 <= i < s@.len() ==> (#[trigger] s@[i]).pos.in_world(),
    ensures
        r == nearest_creep(s@, from),
{
    let mut best: Option<SimCreep> = None;
    let mut best_range: u32 = 0;
    let mut i: usize = 0;
    assert(s@.take(0) =~= Seq::<SimCreep>::empty());
    while i < s.len()
        invariant
            i <= s@.len(),
            from.in_world(),
            forall|k: int| 0 <= k < s@.len() ==> (#[trigger] s@[k]).pos.in_world(),
            best == nearest_creep(s@.take(i as int), from),
            best matches Some(b) ==> best_range == from.tiles_to(b.pos),
        decreases s.len() - i,
    {
        assert(s@.take(i as int + 1).drop_last() =~= s@.take(i as int));
        let c: SimCreep = s[i];
        let range: u32 = tile_range(from, c.pos);
        if best.is_none() || range < best_range {
            best = Some(c);
            best_range = range;
        }
        i = i + 1;
    }
    assert(s@.take(i as int) =~= s@);
    best
}

/// The fire of towers without a squad: each at the enemy nearest to it, the first of
/// several.
pub fn towers_alone_intents(world: &CombatWorld, owner: PlayerId) -> (r: Vec<TowerOrder>)
    requires
        world.wf(),
    ensures
        r@ == nearest_orders(
            world.towers@.filter(standing(owner)),
            world.creeps@.filter(hostile(owner)),
        ),
{
    let towers: Vec<SimTower> = standing_towers(world, owner);
    let enemies: Vec<SimCreep> = hostiles(world, owner);
    let mut out: Vec<TowerOrder> = Vec::new();
    let mut i: usize = 0;
    assert(towers@.take(0) =~= Seq::<SimTower>::empty());
    while i < towers.len()
        invariant
            i <= towers@.len(),
            forall|k: int| 0 <= k < towers@.len() ==> (#[trigger] towers@[k]).pos.in_world(),
            forall|k: int| 0 <= k < enemies@.len() ==> (#[trigger] enemies@[k]).pos.in_world(),
            out@ == nearest_orders(towers@.take(i as int), enemies@),
        decreases towers.len() - i,
    {
        assert(towers@.take(i as int + 1).drop_last() =~= towers@.take(i as int));
        let t: SimTower = towers[i];
        if let Some(c) = find_nearest(&enemies, t.pos) {
            out.push(TowerOrder { tower: t.id, target: c.id });
        }
        i = i + 1;
    }
    assert(towers@.take(i as int) =~= towers@);
    out
}

/// What was decided for a tower: its place among the standing ones, and the creep to
/// fire at, where there is one.
#[derive(Clone, Copy, Debug)]
pub struct TowerDecision {
    pub tower_idx: usize,
    pub target: Option<u32>,
}

/// The orders that a list of decisions comes to.
pub open spec fn decided_orders(towers: Seq<SimTower>, d: Seq<TowerDecision>) -> Seq<TowerOrder>
    decreases d.len(),
{
    if d.len() == 0 {
        seq![]
    } else {
        let before = decided_orders(towers, d.drop_last());
        match d.last().target {
            Some(id) if d.last().tower_idx < towers.len() => before.push(
                TowerOrder { tower: towers[d.last().tower_idx as int].id, target: id },
            ),
            _ => before,
        }
    }
}

/// The orders that the decisions for the standing towers come to. One without a
/// target, or for a tower that does not stand, comes to none.
pub fn combined_tower_intents(
    world: &CombatWorld,
    owner: PlayerId,
    decisions: &Vec<TowerDecision>,
) -> (r: Vec<TowerOrder>)
    ensures
        r@ == decided_orders(world.towers@.filter(standing(owner)), decisions@),
{
    let towers: Vec<SimTower> = standing_towers(world, owner);
    let mut out: Vec<TowerOrder> = Vec::new();
    let mut i: usize = 0;
    assert(decisions@.take(0) =~= Seq::<TowerDecision>::empty());
    while i < decisions.len()
        invariant
            i <= decisions@.len(),
            out@ == decided_orders(towers@, decisions@.take(i as int)),
        decreases decisions.len() - i,
    {
        assert(decisions@.take(i as int + 1).drop_last() =~= decisions@.take(i as int));
        let d: TowerDecision = decisions[i];
        if let Some(id) = d.target {
            if d.tower_idx < towers.len() {
                out.push(TowerOrder { tower: towers[d.tower_idx].id, target: id });
            }
        }
        i = i + 1;
    }
    assert(decisions@.take(i as int) =~= decisions@);
    out
}

/// What a squad brings to bear on its focus.
#[derive(Clone, Copy, Debug, PartialEq, Eq, Structural)]
pub struct SquadFocus {
    pub id: u32,
    pub squad_dps: u32,
}

pub open spec fn summed_dps(dps: Seq<u32>) -> int {
    total(Seq::new(dps.len(), |i: int| dps[i] as int))
}

/// The squad's focus, with what its living members do to it together; none without
/// a living member or a focus.
pub fn squad_focus_for_towers(focus: Option<u32>, member_dps: &Vec<u32>) -> (r: Option<SquadFocus>)
    requires
        summed_dps(member_dps@) <= u32::MAX,
    ensures
        r == match focus {
            Some(id) if member_dps@.len() > 0 => Some(
                SquadFocus { id, squad_dps: summed_dps(member_dps@) as u32 },
            ),
            _ => None,
        },
        r is Some <==> focus is Some && member_dps@.len() > 0,
        r is Some ==> r->0.id == focus->0,
        forall|i: int| r is Some && 0 <= i < member_dps@.len() ==> #[trigger] member_dps@[i]
            <= r->0.squad_dps,
{
    proof {
        let d = Seq::new(member_dps@.len(), |i: int| member_dps@[i] as int);
        assert forall|i: int| 0 <= i < member_dps@.len() implies #[trigger] member_dps@[i]
            <= total(d) by {
            lemma_total_bound(d, i + 1);
            lemma_total_bound(d, i);
            assert(d.take(i + 1).drop_last() =~= d.take(i));
            lemma_total_bound(d.take(i), i);
        }
    }
    if member_dps.len() == 0 {
        return None;
    }
    match focus {
        None => None,
        Some(id) => {
            let ghost d = Seq::new(member_dps@.len(), |i: int| member_dps@[i] as int);
            let mut sum: u32 = 0;
            let mut i: usize = 0;
            assert(d.take(0) =~= Seq::<int>::empty());
            while i < member_dps.len()
                invariant
                    i <= member_dps@.len(),
                    d == Seq::new(member_dps@.len(), |k: int| member_dps@[k] as int),
                    total(d) <= u32::MAX,
                    sum == total(d.take(i as int)),
                decreases member_dps.len() - i,
            {
                proof {
                    assert(d.take(i as int + 1).drop_last() =~= d.take(i as int));
                    lemma_total_bound(d, i as int + 1);
                }
                sum = sum + member_dps[i];
                i = i + 1;
            }
            assert(d.take(i as int) =~= d);
            Some(SquadFocus { id, squad_dps: sum })
        },
    }
}

/// Ticks to the kill by the squad, by the tower, and by both; none where the target
/// survived.
#[derive(Clone, Copy, Debug, PartialEq, Eq, Structural)]
pub struct U7Result {
    pub squad_alone: Option<u32>,
    pub towers_alone: Option<u32>,
    pub combined: Option<u32>,
}

/// A kill in `t` ticks beats a measurement that took longer or failed.
pub open spec fn beats(t: u32, other: Option<u32>) -> bool {
    other matches Some(o) ==> t < o
}

impl U7Result {
    pub open spec fn wins(self) -> bool {
        self.combined matches Some(t) && beats(t, self.squad_alone) && beats(t, self.towers_alone)
    }

    /// Whether both together kill the target, and in fewer ticks than either alone.
    pub fn combined_wins(&self) -> (r: bool)
        ensures
            r == self.wins(),
    {
        match self.combined {
            None => false,
            Some(t) => {
                let squad: bool = match self.squad_alone {
                    Some(o) => t < o,
                    None => true,
                };
                let towers: bool = match self.towers_alone {
                    Some(o) => t < o,
                    None => true,
                };
                squad && towers
            },
        }
    }
}

/// A shot priced at one tile, the tile that the focus then moved to, and whether the
/// target's id still finds it.
#[derive(Clone, Copy, Debug, PartialEq, Eq, Structural)]
pub struct U7LagResult {
    pub priced_pos: WPos,
    pub moved_pos: WPos,
    pub id_reresolves_to_focus: bool,
}

/// The first living creep with an id.
pub open spec fn first_living(s: Seq<SimCreep>, id: u32) -> Option<SimCreep> {
    crate::mover_adjudication::living_with(s, id)
}

/// What a shot that was priced before the focus moved comes to in the moved world;
/// none if the focus did not live to move. `resolved` is the creep that the target's
/// id finds there.
pub fn lag_result(priced_pos: WPos, moved: &CombatWorld, resolved: Option<u32>) -> (r: Option<
    U7LagResult,
>)
    ensures
        r == match first_living(moved.creeps@, TARGET_ID) {
            Some(c) => Some(
                U7LagResult {
                    priced_pos,
                    moved_pos: c.pos,
                    id_reresolves_to_focus: resolved == Some(TARGET_ID),
                },
            ),
            None => None,
        },
        r matches Some(l) ==> l.priced_pos == priced_pos,
        r matches Some(l) ==> (l.id_reresolves_to_focus <==> resolved == Some(100u32)),
{
    match crate::mover_adjudication::find_living(&moved.creeps, TARGET_ID) {
        None => None,
        Some(c) => Some(
            U7LagResult {
                priced_pos,
                moved_pos: c.pos,
                id_reresolves_to_focus: match resolved {
                    Some(id) => id == TARGET_ID,
                    None => false,
                },
            },
        ),
    }
}

// ── What the measurement is made of ────────────────────────────────────────

/// Every part of the target has a hundred hits, and every healing one restores twelve; it
/// deals no damage.
pub proof fn a_target_heals_by_its_parts(pos: WPos, heal: int, other: int)
    requires
        0 <= heal <= 1000,
        0 <= other <= 1000,
    ensures
        ({
            let t = target_at(pos, heal, other);
            &&& target_at(pos, heal + 1, other).hits == t.hits + 100
            &&& target_at(pos, heal, other + 1).hits == t.hits + 100
            &&& target_at(pos, heal + 1, other).heal_power == t.heal_power + 12
            &&& target_at(pos, heal, other + 1).heal_power == t.heal_power
            &&& target_at(pos, 0, 0).hits == 0 && target_at(pos, 0, 0).heal_power == 0
            &&& t.hits == t.hits_max
            &&& t.attack_power == 0 && t.ranged_attack_power == 0 && t.dismantle_power == 0
            &&& t.pos == pos && t.id == 100 && t.owner == 1
        }),
{
}

/// The shooters stand side by side, each with its own id, none of them the target's; a
/// shooting part shoots for ten and brings two hundred hits, its moving part's among them.
pub proof fn shooters_stand_side_by_side(i: int, j: int, parts: int)
    requires
        0 <= i < j < 30,
        0 <= parts <= 50,
    ensures
        ({
            let (a, b) = (defender_at(i, parts), defender_at(j, parts));
            &&& a.id != b.id && a.id != 100
            &&& b.pos.wx - a.pos.wx == j - i && b.pos.wy == a.pos.wy
            &&& defender_at(i, parts + 1).hits == a.hits + 200
            &&& defender_at(i, parts + 1).ranged_attack_power == a.ranged_attack_power + 10
            &&& defender_at(i, 0).hits == 0 && defender_at(i, 0).ranged_attack_power == 0
            &&& a.hits == a.hits_max
            &&& a.owner == 0 && a.attack_power == 0 && a.heal_power == 0 && a.dismantle_power == 0
        }),
{
}

/// The tower stands twenty tiles from the target, on the shooters' side, with energy for
/// every tick.
pub proof fn the_tower_stands_twenty_tiles_off(t: SimCreep)
    requires
        t == target_at(tile_in(base_room(), 25, 25), 20, 10),
    ensures
        far_tower().pos.tiles_to(t.pos) == 20,
        far_tower().owner == 0,
        far_tower().hits == 3000,
        far_tower().energy >= 10 * 400,
        far_tower().id != t.id,
        far_tower().energy == 100_000,
        far_tower().id == 200,
{
}

/// A target lives while a creep of its id has hits.
pub proof fn a_target_lives_while_it_has_hits(w: CombatWorld, id: u32, i: int)
    requires
        0 <= i < w.creeps@.len(),
    ensures
        w.creeps@[i].id == id && w.creeps@[i].hits >= 1 ==> lives(w, id),
        (forall|k: int|
            0 <= k < w.creeps@.len() ==> (#[trigger] w.creeps@[k]).id != id || w.creeps@[k].hits
                == 0) ==> !lives(w, id),
{
}

/// A watch counts every tick once. A dead target is a kill at that tick, also on the last; a
/// living one has survived when the ticks are used up.
pub proof fn a_watch_counts_to_the_kill(w: KillWatch)
    requires
        w.tick < w.max_ticks,
    ensures
        w.after(true).0.tick == w.tick + 1,
        w.after(false).0.tick == w.tick + 1,
        w.after(true).0.max_ticks == w.max_ticks,
        w.after(false).1 == KillStep::Killed((w.tick + 1) as u32),
        w.tick + 1 < w.max_ticks ==> w.after(true).1 == KillStep::Running,
        w.tick + 1 == w.max_ticks ==> w.after(true).1 == KillStep::Survived,
        KillStep::Killed(w.tick).as_ticks() == Some(w.tick),
        KillStep::Survived.as_ticks() is None,
        KillStep::Running.as_ticks() is None,
{
}

/// A tower stands for its owner while it has hits, with or without energy.
pub proof fn a_tower_stands_while_it_has_hits(t: SimTower, owner: PlayerId)
    ensures
        standing(owner)(t) <==> t.hits >= 1 && t.owner == owner,
{
}

/// Of several creeps as near the first is fired at.
pub proof fn the_first_of_the_nearest_is_fired_at(s: Seq<SimCreep>, from: WPos, i: int)
    requires
        0 <= i < s.len(),
        forall|k: int| 0 <= k < i ==> from.tiles_to((#[trigger] s[k]).pos) > from.tiles_to(s[i].pos),
        forall|k: int|
            i < k < s.len() ==> from.tiles_to((#[trigger] s[k]).pos) >= from.tiles_to(s[i].pos),
    ensures
        nearest_creep(s, from) == Some(s[i]),
    decreases s.len(),
{
    let d = s.drop_last();
    let n = s.len() - 1;
    if i < n {
        assert(from.tiles_to(s[n].pos) >= from.tiles_to(s[i].pos));
        the_first_of_the_nearest_is_fired_at(d, from, i);
    } else if d.len() > 0 {
        nearest_creep_is_nearest(d, from, 0);
        let c = nearest_creep(d, from)->0;
        let k = choose|k: int| 0 <= k < d.len() && d[k] == c;
        assert(from.tiles_to(s[k].pos) > from.tiles_to(s[i].pos));
    }
}

/// Without enemies no tower fires; with any, every tower fires once, in order, at a creep
/// than which none is nearer to it.
pub proof fn every_tower_fires_at_its_nearest(
    towers: Seq<SimTower>,
    enemies: Seq<SimCreep>,
    t: int,
    e: int,
)
    requires
        0 <= t < towers.len(),
    ensures
        enemies.len() == 0 ==> nearest_orders(towers, enemies).len() == 0,
        enemies.len() > 0 ==> nearest_orders(towers, enemies).len() == towers.len(),
        0 <= e < enemies.len() ==> {
            &&& nearest_orders(towers, enemies)[t].tower == towers[t].id
            &&& exists|k: int|
                0 <= k < enemies.len() && (#[trigger] enemies[k]).id == nearest_orders(
                    towers,
                    enemies,
                )[t].target && towers[t].pos.tiles_to(enemies[k].pos) <= towers[t].pos.tiles_to(
                    enemies[e].pos,
                )
        },
    decreases towers.len(),
{
    let n = towers.len() - 1;
    let d = towers.drop_last();
    if 0 <= e < enemies.len() {
        nearest_creep_is_nearest(enemies, towers.last().pos, e);
    }
    if enemies.len() > 0 {
        nearest_creep_is_nearest(enemies, towers.last().pos, 0);
    }
    if d.len() > 0 {
        every_tower_fires_at_its_nearest(d, enemies, if t < n {
            t
        } else {
            0
        }, e);
    } else {
        assert(nearest_orders(d, enemies).len() == 0);
    }
    if 0 <= e < enemies.len() && t == n {
        let c = nearest_creep(enemies, towers.last().pos)->0;
        let k = choose|k: int| 0 <= k < enemies.len() && enemies[k] == c;
        assert(enemies[k].id == nearest_orders(towers, enemies)[t].target);
    }
}

/// One more decision comes to one more order where its tower stands and it has a target, and
/// to none otherwise.
pub proof fn a_decision_comes_to_its_order(
    towers: Seq<SimTower>,
    d: Seq<TowerDecision>,
    x: TowerDecision,
)
    ensures
        decided_orders(towers, seq![]).len() == 0,
        x.target is None ==> decided_orders(towers, d.push(x)) == decided_orders(towers, d),
        x.tower_idx >= towers.len() ==> decided_orders(towers, d.push(x)) == decided_orders(
            towers,
            d,
        ),
        x.target is Some && x.tower_idx < towers.len() ==> decided_orders(towers, d.push(x))
            == decided_orders(towers, d).push(
            TowerOrder { tower: towers[x.tower_idx as int].id, target: x.target->0 },
        ),
{
    assert(d.push(x).drop_last() =~= d);
}

/// One more member adds its damage to the squad's.
pub proof fn one_more_member_adds_its_damage(d: Seq<u32>, x: u32)
    ensures
        summed_dps(d.push(x)) == summed_dps(d) + x,
        summed_dps(seq![]) == 0,
{
    let g = d.push(x);
    assert(Seq::new(g.len(), |i: int| g[i] as int).drop_last() =~= Seq::new(
        d.len(),
        |i: int| d[i] as int,
    ));
    let e = Seq::<u32>::empty();
    assert(Seq::new(e.len(), |i: int| e[i] as int) =~= Seq::<int>::empty());
}

/// Both together win only with a kill, and only in fewer ticks than each alone took; as many
/// are no win, and one that failed alone is beaten by any kill.
pub proof fn both_win_by_fewer_ticks(r: U7Result, t: u32)
    ensures
        r.combined is None ==> !r.wins(),
        r.squad_alone == r.combined ==> !r.wins(),
        r.towers_alone == r.combined ==> !r.wins(),
        r.combined == Some(t) && r.squad_alone is None && r.towers_alone is None ==> r.wins(),
        r.combined == Some(t) && r.wins() && r.squad_alone is Some ==> t + 1 <= r.squad_alone->0,
        r.combined == Some(t) && r.wins() && r.towers_alone is Some ==> t + 1
            <= r.towers_alone->0,
        r.combined == Some(t) && (r.squad_alone matches Some(s) ==> t < s) && (
        r.towers_alone matches Some(s) ==> t < s) ==> r.wins(),
{
}

/// A watch that is given the most ticks sees no tick after the four hundredth.
pub proof fn a_watch_ends_after_four_hundred_ticks(tick: int)
    ensures
        tick <= MAX_TICKS <==> tick <= 400,
        TARGET_ID == 100,
{
}

} // verus!
