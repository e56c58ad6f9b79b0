//! Raiding a stronghold: how its towers aim, what the sizing is told of it, how the
//! assault is graded, and the gauntlet of creeps camping at a border.

use crate::colony::lemma_filter_take;
use crate::evaluate::{first_reason, Condition, EvalStep, Evaluation, StopReason};
use crate::fielding::{assault_watches_core_and_attacker, stops_assault};
use crate::position::{tile_range, WPos};
use crate::profile::{
    creep_dps, fighters, fighting, force_dps, hits_of, lemma_total_bound, structure_hits, threats,
    total, EnemyForce, TowerThreat,
};
use crate::scenario::{Objective, Scenario};
use crate::stronghold::{
    copies, core_at, core_objective, core_structure, is_raid, raid_scenario, staging_room, BodyKind,
    DefenderSpot, CORE_HITS, DEFENDER_ID_BASE,
};
use crate::terrain_import::{CombatTerrain, TerrainView};
use crate::text::{decimal, push_decimal};
use crate::validate::{reached, reached_vicinity};
use crate::world::{
    pos_in, tile_in, CombatWorld, PlayerId, SimCreep, SimStructure, SimTower, StructureKind,
};
use vstd::prelude::*;
use vstd::string::*;

verus! {

/// Hits that a heal part restores.
pub const HEAL_POWER: u32 = 12;

/// The damage of a tower shot by range; past the table's end its last entry counts.
pub open spec fn shot(table: Seq<u32>, range: int) -> u32 {
    if range < table.len() {
        table[range]
    } else {
        table.last()
    }
}

pub open spec fn hostile(defender: PlayerId) -> spec_fn(SimCreep) -> bool {
    |c: SimCreep| c.alive() && c.owner != defender
}

pub open spec fn armed(defender: PlayerId) -> spec_fn(SimTower) -> bool {
    |t: SimTower| t.alive() && t.owner == defender && t.energy >= 10
}

/// What all the towers together do to a creep.
pub open spec fn volley(towers: Seq<SimTower>, table: Seq<u32>, c: SimCreep) -> int {
    total(Seq::new(towers.len(), |i: int| shot(table, towers[i].pos.tiles_to(c.pos)) as int))
}

/// `b` is the better target: it takes more damage, or as much and has the lower id,
/// or comes later with the same id.
pub open spec fn better_target(
    towers: Seq<SimTower>,
    table: Seq<u32>,
    a: SimCreep,
    b: SimCreep,
) -> bool {
    let da = volley(towers, table, a);
    let db = volley(towers, table, b);
    db > da || (db == da && b.id <= a.id)
}

/// The creep that the towers concentrate on.
pub open spec fn focus(towers: Seq<SimTower>, table: Seq<u32>, h: Seq<SimCreep>) -> Option<SimCreep>
    decreases h.len(),
{
    if h.len() == 0 {
        None
    } else {
        match focus(towers, table, h.drop_last()) {
            Some(f) if !better_target(towers, table, f, h.last()) => Some(f),
            _ => Some(h.last()),
        }
    }
}

/// A tower's order to fire at a creep.
#[derive(Clone, Copy, Debug, PartialEq, Eq, Structural)]
pub struct TowerOrder {
    pub tower: u32,
    pub target: u32,
}

/// All towers fire at the one creep that takes the most.
pub open spec fn focus_orders(world: CombatWorld, defender: PlayerId, table: Seq<u32>) -> Seq<
    TowerOrder,
> {
    let towers = world.towers@.filter(armed(defender));
    match focus(towers, table, world.creeps@.filter(hostile(defender))) {
        None => seq![],
        Some(c) => Seq::new(
            towers.len(),
            |i: int| TowerOrder { tower: towers[i].id, target: c.id },
        ),
    }
}

/// Every tower's damage to every creep adds up within bounds.
pub open spec fn volleys_fit(towers: Seq<SimTower>, table: Seq<u32>, h: Seq<SimCreep>) -> bool {
    forall|i: int| 0 <= i < h.len() ==> volley(towers, table, #[trigger] h[i]) <= u32::MAX
}

/// The concentrated target takes at least as much as any other hostile.
pub proof fn focus_takes_the_most(
    towers: Seq<SimTower>,
    table: Seq<u32>,
    h: Seq<SimCreep>,
    i: int,
)
    requires
        0 <= i < h.len(),
    ensures
        focus(towers, table, h) matches Some(f) && volley(towers, table, f) >= volley(
            towers,
            table,
            h[i],
        ) && h.contains(f),
    decreases h.len(),
{
    let d = h.drop_last();
    if d.len() > 0 {
        focus_takes_the_most(towers, table, d, if i < d.len() {
            i
        } else {
            0
        });
        let f = focus(towers, table, d)->0;
        let j = choose|j: int| 0 <= j < d.len() && d[j] == f;
        assert(h[j] == f);
    } else {
        assert(focus(towers, table, d) is None);
    }
    assert(h[h.len() - 1] == h.last());
}

fn shot_at(table: &Vec<u32>, range: u32) -> (r: u32)
    requires
        table@.len() > 0,
    ensures
        r == shot(table@, range as int),
{
    if (range as usize) < table.len() {
        table[range as usize]
    } else {
        table[table.len() - 1]
    }
}

fn volley_at(towers: &Vec<SimTower>, table: &Vec<u32>, c: &SimCreep) -> (r: u32)
    requires
        table@.len() > 0,
        c.pos.in_world(),
        forall|i: int| 0 <= i < towers@.len() ==> (#[trigger] towers@[i]).pos.in_world(),
        volley(towers@, table@, *c) <= u32::MAX,
    ensures
        r == volley(towers@, table@, *c),
{
    let ghost d = Seq::new(
        towers@.len(),
        |i: int| shot(table@, towers@[i].pos.tiles_to(c.pos)) as int,
    );
    let mut sum: u32 = 0;
    let mut i: usize = 0;
    assert(d.take(0) =~= Seq::<int>::empty());
    while i < towers.len()
        invariant
            i <= towers@.len(),
            table@.len() > 0,
            c.pos.in_world(),
            forall|k: int| 0 <= k < towers@.len() ==> (#[trigger] towers@[k]).pos.in_world(),
            d == Seq::new(
                towers@.len(),
                |k: int| shot(table@, towers@[k].pos.tiles_to(c.pos)) as int,
            ),
            total(d) <= u32::MAX,
            sum == total(d.take(i as int)),
        decreases towers.len() - i,
    {
        proof {
            assert(d.take(i as int + 1).drop_last() =~= d.take(i as int));
            lemma_total_bound(d, i as int + 1);
        }
        sum = sum + shot_at(table, tile_range(towers[i].pos, c.pos));
        i = i + 1;
    }
    assert(d.take(i as int) =~= d);
    sum
}

fn armed_towers(world: &CombatWorld, defender: PlayerId) -> (r: Vec<SimTower>)
    requires
        world.wf(),
    ensures
        r@ == world.towers@.filter(armed(defender)),
        forall|i: int| 0 <= i < r@.len() ==> (#[trigger] r@[i]).pos.in_world(),
{
    let mut out: Vec<SimTower> = Vec::new();
    let mut i: usize = 0;
    proof {
        reveal(Seq::filter);
        assert(world.towers@.take(0) =~= Seq::<SimTower>::empty());
    }
    while i < world.towers.len()
        invariant
            world.wf(),
            i <= world.towers@.len(),
            out@ == world.towers@.take(i as int).filter(armed(defender)),
            forall|k: int| 0 <= k < out@.len() ==> (#[trigger] out@[k]).pos.in_world(),
        decreases world.towers.len() - i,
    {
        proof {
            lemma_filter_take(world.towers@, armed(defender), i as int);
        }
        let t: SimTower = world.towers[i];
        if t.is_alive() && t.owner == defender && t.energy >= 10 {
            out.push(t);
        }
        i = i + 1;
    }
    assert(world.towers@.take(i as int) =~= world.towers@);
    out
}

pub(crate) fn hostiles(world: &CombatWorld, defender: PlayerId) -> (r: Vec<SimCreep>)
    requires
        world.wf(),
    ensures
        r@ == world.creeps@.filter(hostile(defender)),
        forall|i: int| 0 <= i < r@.len() ==> (#[trigger] r@[i]).pos.in_world(),
{
    let mut out: Vec<SimCreep> = Vec::new();
    let mut i: usize = 0;
    proof {
        reveal(Seq::filter);
        assert(world.creeps@.take(0) =~= Seq::<SimCreep>::empty());
    }
    while i < world.creeps.len()
        invariant
            world.wf(),
            i <= world.creeps@.len(),
            out@ == world.creeps@.take(i as int).filter(hostile(defender)),
            forall|k: int| 0 <= k < out@.len() ==> (#[trigger] out@[k]).pos.in_world(),
        decreases world.creeps.len() - i,
    {
        proof {
            lemma_filter_take(world.creeps@, hostile(defender), i as int);
        }
        let c: SimCreep = world.creeps[i];
        if c.is_alive() && c.owner != defender {
            out.push(c);
        }
        i = i + 1;
    }
    assert(world.creeps@.take(i as int) =~= world.creeps@);
    out
}

fn find_focus(towers: &Vec<SimTower>, table: &Vec<u32>, h: &Vec<SimCreep>) -> (r: Option<SimCreep>)
    requires
        table@.len() > 0,
        forall|i: int| 0 <= i < towers@.len() ==> (#[trigger] towers@[i]).pos.in_world(),
        forall|i: int| 0 <= i < h@.len() ==> (#[trigger] h@[i]).pos.in_world(),
        volleys_fit(towers@, table@, h@),
    ensures
        r == focus(towers@, table@, h@),
{
    let mut best: Option<(SimCreep, u32)> = None;
    let mut i: usize = 0;
    assert(h@.take(0) =~= Seq::<SimCreep>::empty());
    while i < h.len()
        invariant
            i <= h@.len(),
            table@.len() > 0,
            forall|k: int| 0 <= k < towers@.len() ==> (#[trigger] towers@[k]).pos.in_world(),
            forall|k: int| 0 <= k < h@.len() ==> (#[trigger] h@[k]).pos.in_world(),
            volleys_fit(towers@, table@, h@),
            focus(towers@, table@, h@.take(i as int)) == match best {
                Some(b) => Some(b.0),
                None => None,
            },
            best matches Some(b) ==> b.1 == volley(towers@, table@, b.0),
        decreases h.len() - i,
    {
        assert(h@.take(i as int + 1).drop_last() =~= h@.take(i as int));
        let c: SimCreep = h[i];
        assert(volley(towers@, table@, h@[i as int]) <= u32::MAX);
        let d: u32 = volley_at(towers, table, &c);
        let keep: bool = match best {
            Some(b) => !(d > b.1 || (d == b.1 && c.id <= b.0.id)),
            None => false,
        };
        if !keep {
            best = Some((c, d));
        }
        i = i + 1;
    }
    assert(h@.take(i as int) =~= h@);
    match best {
        Some(b) => Some(b.0),
        None => None,
    }
}

/// The orders of a high stronghold's towers: all fire at the one hostile that takes
/// the most from them together. `table` gives a shot's damage by range.
pub fn stronghold_tower_intents(world: &CombatWorld, defender: PlayerId, table: &Vec<u32>) -> (r:
    Vec<TowerOrder>)
    requires
        world.wf(),
        table@.len() > 0,
        volleys_fit(
            world.towers@.filter(armed(defender)),
            table@,
            world.creeps@.filter(hostile(defender)),
        ),
    ensures
        r@ == focus_orders(*world, defender, table@),
{
    let towers: Vec<SimTower> = armed_towers(world, defender);
    let h: Vec<SimCreep> = hostiles(world, defender);
    let mut out: Vec<TowerOrder> = Vec::new();
    if let Some(c) = find_focus(&towers, table, &h) {
        let ghost want = focus_orders(*world, defender, table@);
        let mut i: usize = 0;
        while i < towers.len()
            invariant
                i <= towers@.len(),
                want == Seq::new(
                    towers@.len(),
                    |k: int| TowerOrder { tower: towers@[k].id, target: c.id },
                ),
                out@ == want.take(i as int),
            decreases towers.len() - i,
        {
            out.push(TowerOrder { tower: towers[i].id, target: c.id });
            i = i + 1;
            assert(out@ =~= want.take(i as int));
        }
        assert(out@ =~= want);
    }
    assert(out@ =~= focus_orders(*world, defender, table@));
    out
}

/// Whether a level's towers concentrate their fire; else each takes the closest.
pub fn concentrates_fire(level: u8) -> (r: bool)
    ensures
        r == (level > 3),
        level >= 4 ==> r,
        level <= 3 ==> !r,
{
    level > 3
}

/// What the sizing is told of a stronghold.
#[derive(Debug)]
pub struct AssaultInputs {
    pub towers: Vec<TowerThreat>,
    pub enemy: Option<EnemyForce>,
    pub breach_hits: u32,
    pub objective_hits: u32,
}

pub open spec fn living_tower() -> spec_fn(SimTower) -> bool {
    |t: SimTower| t.alive()
}

/// A living rampart next to the objective.
pub open spec fn guards(s: SimStructure, o: Objective) -> bool {
    s.alive() && s.kind == StructureKind::Rampart && s.pos.tiles_to(o.pos) <= 1
}

/// The hits of the strongest rampart next to the objective.
pub open spec fn strongest_guard(s: Seq<SimStructure>, o: Objective) -> u32
    decreases s.len(),
{
    if s.len() == 0 {
        0
    } else {
        let before = strongest_guard(s.drop_last(), o);
        if guards(s.last(), o) && s.last().hits > before {
            s.last().hits
        } else {
            before
        }
    }
}

pub open spec fn boosted_heal(s: Seq<SimCreep>) -> int {
    total(Seq::new(s.len(), |i: int| s[i].heal_power * HEAL_POWER))
}

pub open spec fn full_hits(s: Seq<SimCreep>) -> int {
    total(Seq::new(s.len(), |i: int| s[i].hits_max as int))
}

pub open spec fn garrison_fits(s: Seq<SimCreep>) -> bool {
    &&& force_dps(s) <= u64::MAX
    &&& boosted_heal(s) <= u64::MAX
    &&& full_hits(s) <= u32::MAX
    &&& s.len() <= u32::MAX
}

/// The defenders as the sizing meets them, at full hits.
pub open spec fn garrison(s: Seq<SimCreep>) -> Option<EnemyForce> {
    if s.len() == 0 {
        None
    } else {
        Some(
            EnemyForce {
                dps: force_dps(s) as u64,
                heal: boosted_heal(s) as u64,
                hits: full_hits(s) as u32,
                count: s.len() as u32,
            },
        )
    }
}

/// Twice a number of hits, at most what fits.
pub open spec fn doubled(h: u32) -> u32 {
    if 2 * h > u32::MAX {
        u32::MAX
    } else {
        (2 * h) as u32
    }
}

pub open spec fn is_assault_inputs(r: AssaultInputs, s: Scenario) -> bool {
    let o = s.objectives@[0];
    &&& r.towers@ == threats(s.world.towers@.filter(living_tower()), o.assault_pos)
    &&& r.enemy == garrison(s.world.creeps@.filter(fighting(s.defender_owner)))
    &&& r.breach_hits == doubled(strongest_guard(s.world.structures@, o))
    &&& r.objective_hits == match hits_of(s.world.structures@, o.id) {
        Some(h) => h,
        None => CORE_HITS,
    }
}

fn garrison_of(s: &Vec<SimCreep>) -> (r: Option<EnemyForce>)
    requires
        garrison_fits(s@),
    ensures
        r == garrison(s@),
{
    if s.len() == 0 {
        return None;
    }
    let ghost d = Seq::new(s@.len(), |i: int| creep_dps(s@[i]));
    let ghost h = Seq::new(s@.len(), |i: int| s@[i].heal_power * HEAL_POWER);
    let ghost t = Seq::new(s@.len(), |i: int| s@[i].hits_max as int);
    let mut dps: u64 = 0;
    let mut heal: u64 = 0;
    let mut hits: u32 = 0;
    let mut i: usize = 0;
    assert(d.take(0) =~= Seq::<int>::empty());
    assert(h.take(0) =~= Seq::<int>::empty());
    assert(t.take(0) =~= Seq::<int>::empty());
    while i < s.len()
        invariant
            i <= s@.len(),
            d == Seq::new(s@.len(), |k: int| creep_dps(s@[k])),
            h == Seq::new(s@.len(), |k: int| s@[k].heal_power * HEAL_POWER),
            t == Seq::new(s@.len(), |k: int| s@[k].hits_max as int),
            total(d) <= u64::MAX,
            total(h) <= u64::MAX,
            total(t) <= u32::MAX,
            dps == total(d.take(i as int)),
            heal == total(h.take(i as int)),
            hits == total(t.take(i as int)),
        decreases s.len() - i,
    {
        proof {
            assert(d.take(i as int + 1).drop_last() =~= d.take(i as int));
            assert(h.take(i as int + 1).drop_last() =~= h.take(i as int));
            assert(t.take(i as int + 1).drop_last() =~= t.take(i as int));
            lemma_total_bound(d, i as int + 1);
            lemma_total_bound(h, i as int + 1);
            lemma_total_bound(t, i as int + 1);
        }
        let c: SimCreep = s[i];
        let power: u64 = c.attack_power as u64 + c.ranged_attack_power as u64;
        dps = dps + power;
        heal = heal + c.heal_power as u64 * HEAL_POWER as u64;
        hits = hits + c.hits_max;
        i = i + 1;
    }
    assert(d.take(i as int) =~= d);
    assert(h.take(i as int) =~= h);
    assert(t.take(i as int) =~= t);
    Some(EnemyForce { dps, heal, hits, count: s.len() as u32 })
}

fn guard_hits(world: &CombatWorld, o: &Objective) -> (r: u32)
    requires
        world.wf(),
        o.wf(),
    ensures
        r == strongest_guard(world.structures@, *o),
{
    let mut best: u32 = 0;
    let mut i: usize = 0;
    assert(world.structures@.take(0) =~= Seq::<SimStructure>::empty());
    while i < world.structures.len()
        invariant
            world.wf(),
            o.wf(),
            i <= world.structures@.len(),
            best == strongest_guard(world.structures@.take(i as int), *o),
        decreases world.structures.len() - i,
    {
        assert(world.structures@.take(i as int + 1).drop_last() =~= world.structures@.take(
            i as int,
        ));
        let s: SimStructure = world.structures[i];
        if s.is_alive() && s.kind == StructureKind::Rampart && tile_range(s.pos, o.pos) <= 1
            && s.hits > best {
            best = s.hits;
        }
        i = i + 1;
    }
    assert(world.structures@.take(i as int) =~= world.structures@);
    best
}

fn tower_threats(world: &CombatWorld, assault: WPos) -> (r: Vec<TowerThreat>)
    requires
        world.wf(),
        assault.in_world(),
    ensures
        r@ == threats(world.towers@.filter(living_tower()), assault),
{
    let mut out: Vec<TowerThreat> = Vec::new();
    let mut i: usize = 0;
    proof {
        reveal(Seq::filter);
        assert(world.towers@.take(0) =~= Seq::<SimTower>::empty());
        assert(out@ =~= threats(world.towers@.take(0).filter(living_tower()), assault));
    }
    while i < world.towers.len()
        invariant
            world.wf(),
            assault.in_world(),
            i <= world.towers@.len(),
            out@ == threats(world.towers@.take(i as int).filter(living_tower()), assault),
        decreases world.towers.len() - i,
    {
        proof {
            lemma_filter_take(world.towers@, living_tower(), i as int);
        }
        let t: SimTower = world.towers[i];
        if t.is_alive() {
            out.push(
                TowerThreat { range_to_assault: tile_range(t.pos, assault), energy: t.energy },
            );
        }
        i = i + 1;
        assert(out@ =~= threats(world.towers@.take(i as int).filter(living_tower()), assault));
    }
    assert(world.towers@.take(i as int) =~= world.towers@);
    out
}

/// What the sizing is told of a stronghold, from the world itself.
pub fn assault_inputs(s: &Scenario) -> (r: AssaultInputs)
    requires
        s.wf(),
        garrison_fits(s.world.creeps@.filter(fighting(s.defender_owner))),
    ensures
        is_assault_inputs(r, *s),
{
    let o: &Objective = &s.objectives[0];
    assert(s.objectives@[0].wf());
    let guard: u32 = guard_hits(&s.world, o);
    let breach_hits: u32 = if guard > u32::MAX / 2 {
        u32::MAX
    } else {
        guard * 2
    };
    let objective_hits: u32 = match structure_hits(&s.world.structures, o.id) {
        Some(h) => h,
        None => CORE_HITS,
    };
    AssaultInputs {
        towers: tower_threats(&s.world, o.assault_pos),
        enemy: garrison_of(&fighters(&s.world, s.defender_owner)),
        breach_hits,
        objective_hits,
    }
}

/// How a rung of the gauntlet ended.
#[derive(Clone, Copy, Debug, PartialEq, Eq, Structural)]
pub enum RungOutcome {
    /// The core died.
    Killed { ticks: u32 },
    /// The sizing refused to field.
    Deferred,
    /// The force could not be put down.
    Unfieldable,
    /// The squad was wiped.
    AttackerWiped { ticks: u32 },
    /// The fight was over with the core and attackers standing.
    Timeout { reached: bool },
}

/// The grade of an assault that was fought. Whatever else happened, the core's fall is a
/// kill, and nothing else is.
pub open spec fn graded(
    stop: StopReason,
    ticks: u32,
    attacker: PlayerId,
    core_up: bool,
    near: bool,
) -> RungOutcome {
    if !core_up {
        RungOutcome::Killed { ticks }
    } else if stop == StopReason::SideWiped(attacker) {
        RungOutcome::AttackerWiped { ticks }
    } else {
        RungOutcome::Timeout { reached: near }
    }
}

/// Grades an assault by how it stopped and the world that it left.
pub fn grade_assault(s: &Scenario, world: &CombatWorld, stop: StopReason, ticks: u32) -> (r:
    RungOutcome)
    requires
        s.wf(),
        world.wf(),
    ensures
        r == graded(
            stop,
            ticks,
            s.attacker_owner,
            world.target_up(s.objectives@[0].id),
            reached(*world, s.attacker_owner, s.objectives@[0]),
        ),
        r is Killed <==> !world.target_up(s.objectives@[0].id),
{
    assert(s.objectives@[0].wf());
    let o: &Objective = &s.objectives[0];
    if !world.is_target_up(o.id) {
        return RungOutcome::Killed { ticks };
    }
    match stop {
        StopReason::SideWiped(side) if side == s.attacker_owner => RungOutcome::AttackerWiped {
            ticks,
        },
        _ => RungOutcome::Timeout { reached: reached_vicinity(world, s.attacker_owner, o) },
    }
}

/// The grade of the world and the step that an assault stops in.
pub open spec fn grade_of(s: Scenario, world: CombatWorld, step: EvalStep) -> Option<RungOutcome> {
    match step {
        EvalStep::Resolve => None,
        EvalStep::Stop { ticks, reason } => Some(
            graded(
                reason,
                ticks,
                s.attacker_owner,
                world.target_up(s.objectives@[0].id),
                reached(world, s.attacker_owner, s.objectives@[0]),
            ),
        ),
    }
}

/// An assault under its own stop condition is graded by what happened: a kill means that
/// the core fell within the budget, a wipe that it stands and no attacker does, and a
/// timeout that both stand at the end of the budget.
pub proof fn a_kill_takes_the_core_in_time(
    s: Scenario,
    conds: Seq<Condition>,
    e: Evaluation,
    world: CombatWorld,
)
    requires
        stops_assault(s, s.objectives@[0], conds),
        e.wf(),
        e.max_ticks == s.onsite_budget,
    ensures
        ({
            let core_up = world.target_up(s.objectives@[0].id);
            match grade_of(s, world, e.step_for(first_reason(conds, world, e.ticks))) {
                None => core_up && world.stands(s.attacker_owner) && e.ticks < s.onsite_budget,
                Some(RungOutcome::Killed { ticks }) => !core_up && ticks <= s.onsite_budget,
                Some(RungOutcome::AttackerWiped { ticks }) => core_up && !world.stands(
                    s.attacker_owner,
                ) && ticks <= s.onsite_budget,
                Some(RungOutcome::Timeout { .. }) => core_up && world.stands(s.attacker_owner)
                    && e.ticks == s.onsite_budget,
                Some(_) => false,
            }
        }),
{
    assault_watches_core_and_attacker(s, s.objectives@[0], conds, world, e.ticks);
}

/// The camp of a gauntlet grade.
pub open spec fn camp_bodies(grade: u8) -> Seq<BodyKind> {
    if grade == 1 {
        copies(BodyKind::RangedCamper, 2)
    } else if grade == 2 {
        copies(BodyKind::RangedCamper, 4)
    } else if grade == 3 {
        copies(BodyKind::BoostedRanger, 4) + copies(BodyKind::BoostedDefender, 2)
    } else {
        copies(BodyKind::FullBoostedRanger, 6)
    }
}

/// The row is open at both borders.
pub open spec fn open_row(t: TerrainView, y: int) -> bool {
    !t.wall_at(0, y) && !t.wall_at(49, y)
}

/// The rows below `n` that are open at both borders.
pub open spec fn open_rows(t: TerrainView, n: int) -> Seq<u8>
    decreases n,
{
    if n <= 1 {
        seq![]
    } else {
        let before = open_rows(t, n - 1);
        if open_row(t, n - 1) {
            before.push((n - 1) as u8)
        } else {
            before
        }
    }
}

/// The row that a camp is centred on: the middle one of those open.
pub open spec fn anchor_row(t: TerrainView) -> u8 {
    let rows = open_rows(t, 49);
    if rows.len() == 0 {
        25
    } else {
        rows[rows.len() as int / 2]
    }
}

/// The `k`th tile that a camp tries: three columns near the border, fanning out from
/// the anchor row.
pub open spec fn camp_try(anchor: u8, k: int) -> (u8, u8) {
    let r = k / 9;
    let x = 45 + k / 3 % 3;
    let y = if k % 3 == 0 {
        anchor as int
    } else if k % 3 == 1 {
        anchor + r
    } else {
        anchor - r
    };
    (
        x as u8,
        (if y < 1 {
            1
        } else if y > 48 {
            48
        } else {
            y
        }) as u8,
    )
}

/// The camp's tiles after `n` tries, at most `need`.
pub open spec fn camp_tiles(t: TerrainView, anchor: u8, need: nat, n: int) -> Seq<(u8, u8)>
    decreases n,
{
    if n <= 0 {
        seq![]
    } else {
        let before = camp_tiles(t, anchor, need, n - 1);
        let c = camp_try(anchor, n - 1);
        if before.len() < need && !t.wall_at(c.0 as int, c.1 as int) && !before.contains(c) {
            before.push(c)
        } else {
            before
        }
    }
}

pub open spec fn camp_of(t: TerrainView, grade: u8) -> Seq<(u8, u8)> {
    camp_tiles(t, anchor_row(t), camp_bodies(grade).len(), 180)
}

pub open spec fn camper(tiles: Seq<(u8, u8)>, bodies: Seq<BodyKind>, i: int) -> DefenderSpot {
    let at = tiles[i % tiles.len() as int];
    DefenderSpot {
        id: (DEFENDER_ID_BASE + i) as u32,
        pos: tile_in((-6i32 as i32, -6i32 as i32), at.0 as int, at.1 as int),
        body: bodies[i],
    }
}

/// The campers stand on distinct open tiles.
pub proof fn campers_stand_apart(t: TerrainView, anchor: u8, need: nat, n: int)
    requires
        0 <= n,
    ensures
        camp_tiles(t, anchor, need, n).no_duplicates(),
        camp_tiles(t, anchor, need, n).len() <= need,
        forall|i: int|
            0 <= i < camp_tiles(t, anchor, need, n).len() ==> !t.wall_at(
                (#[trigger] camp_tiles(t, anchor, need, n)[i]).0 as int,
                camp_tiles(t, anchor, need, n)[i].1 as int,
            ),
    decreases n,
{
    if n > 0 {
        campers_stand_apart(t, anchor, need, n - 1);
        let before = camp_tiles(t, anchor, need, n - 1);
        let after = camp_tiles(t, anchor, need, n);
        if after.len() > before.len() {
            assert forall|i: int, j: int| 0 <= i < j < after.len() implies after[i] != after[j] by {
                if j == before.len() {
                    assert(before.contains(before[i]));
                }
            }
        }
    }
}

fn push_bodies(v: &mut Vec<BodyKind>, k: BodyKind, n: usize)
    ensures
        final(v)@ == old(v)@ + copies(k, n as nat),
{
    let ghost before = v@;
    let mut i: usize = 0;
    assert(v@ =~= before + copies(k, 0));
    while i < n
        invariant
            i <= n,
            v@ == before + copies(k, i as nat),
        decreases n - i,
    {
        v.push(k);
        i = i + 1;
        assert(v@ =~= before + copies(k, i as nat));
    }
}

fn list_camp(grade: u8) -> (r: Vec<BodyKind>)
    requires
        1 <= grade <= 4,
    ensures
        r@ == camp_bodies(grade),
        2 <= r@.len() <= 6,
{
    let mut out: Vec<BodyKind> = Vec::new();
    if grade == 1 {
        push_bodies(&mut out, BodyKind::RangedCamper, 2);
    } else if grade == 2 {
        push_bodies(&mut out, BodyKind::RangedCamper, 4);
    } else if grade == 3 {
        push_bodies(&mut out, BodyKind::BoostedRanger, 4);
        push_bodies(&mut out, BodyKind::BoostedDefender, 2);
    } else {
        push_bodies(&mut out, BodyKind::FullBoostedRanger, 6);
    }
    assert(out@ =~= camp_bodies(grade));
    out
}

fn find_anchor(t: &CombatTerrain) -> (r: u8)
    requires
        t@.wf(),
    ensures
        r == anchor_row(t@),
        1 <= r < 49,
{
    let mut rows: Vec<u8> = Vec::new();
    let mut y: u8 = 1;
    while y < 49
        invariant
            1 <= y <= 49,
            t@.wf(),
            rows@ == open_rows(t@, y as int),
            forall|k: int| 0 <= k < rows@.len() ==> 1 <= #[trigger] rows@[k] < 49,
        decreases 49 - y,
    {
        if !t.is_wall(0, y) && !t.is_wall(49, y) {
            rows.push(y);
        }
        y = y + 1;
    }
    if rows.len() == 0 {
        25
    } else {
        rows[rows.len() / 2]
    }
}

fn try_camp(anchor: u8, k: usize) -> (r: (u8, u8))
    requires
        1 <= anchor < 49,
        k < 180,
    ensures
        r == camp_try(anchor, k as int),
        r.0 < 50,
        r.1 < 50,
{
    let reach: i32 = (k / 9) as i32;
    let x: u8 = 45 + (k / 3 % 3) as u8;
    let y: i32 = if k % 3 == 0 {
        anchor as i32
    } else if k % 3 == 1 {
        anchor as i32 + reach
    } else {
        anchor as i32 - reach
    };
    let clamped: u8 = if y < 1 {
        1
    } else if y > 48 {
        48
    } else {
        y as u8
    };
    (x, clamped)
}

fn has_tile(tiles: &Vec<(u8, u8)>, c: (u8, u8)) -> (r: bool)
    ensures
        r == tiles@.contains(c),
{
    let mut i: usize = 0;
    while i < tiles.len()
        invariant
            i <= tiles@.len(),
            forall|k: int| 0 <= k < i ==> #[trigger] tiles@[k] != c,
        decreases tiles.len() - i,
    {
        let t: (u8, u8) = tiles[i];
        if t.0 == c.0 && t.1 == c.1 {
            assert(tiles@[i as int] == c);
            return true;
        }
        i = i + 1;
    }
    false
}

/// A border guarded by camping creeps.
#[derive(Clone, Copy, Debug)]
pub struct BorderGauntlet;

/// The name of a gauntlet.
pub open spec fn gauntlet_label(grade: u8, terrain_seed: u32) -> Seq<char> {
    "border-gauntlet-g"@ + decimal(grade as nat) + "#s"@ + decimal(terrain_seed as nat)
}

impl BorderGauntlet {
    /// The scenario of a gauntlet: a bare core deep in the room, approached from the
    /// room to the east. `terrain_seed` is the seed whose caves were accepted.
    pub fn build(grade: u8, seed: u32, terrain_seed: u32) -> (s: Scenario)
        requires
            1 <= grade <= 4,
        ensures
            s.world.structures@ == seq![core_at((10, 25))],
            s.world.towers@.len() == 0,
            s.label@ == gauntlet_label(grade, terrain_seed),
            is_raid(s, (10, 25), tile_in(staging_room(), 25, 25), seed),
            s.wf(),
    {
        let mut structures: Vec<SimStructure> = Vec::new();
        structures.push(core_structure((10, 25)));
        assert(structures@ =~= seq![core_at((10, 25))]);
        let mut label: String = String::from_str("border-gauntlet-g");
        push_decimal(&mut label, grade as u64);
        label.append("#s");
        push_decimal(&mut label, terrain_seed as u64);
        let objective: Objective = core_objective((10, 25), pos_in((-5, -6), 25, 25));
        raid_scenario(structures, Vec::new(), objective, label, seed)
    }

    /// The campers of a grade where they are put down. `None` if the terrain leaves
    /// no tile for them.
    pub fn campers(grade: u8, t: &CombatTerrain) -> (r: Option<Vec<DefenderSpot>>)
        requires
            1 <= grade <= 4,
            t@.wf(),
        ensures
            r is None <==> camp_of(t@, grade).len() == 0,
            r matches Some(v) ==> v@ == Seq::new(
                camp_bodies(grade).len(),
                |i: int| camper(camp_of(t@, grade), camp_bodies(grade), i),
            ),
    {
        let bodies: Vec<BodyKind> = list_camp(grade);
        let anchor: u8 = find_anchor(t);
        let need: usize = bodies.len();
        let mut tiles: Vec<(u8, u8)> = Vec::new();
        let mut k: usize = 0;
        while k < 180
            invariant
                k <= 180,
                1 <= anchor < 49,
                t@.wf(),
                tiles@ == camp_tiles(t@, anchor, need as nat, k as int),
                forall|j: int|
                    0 <= j < tiles@.len() ==> (#[trigger] tiles@[j]).0 < 50 && tiles@[j].1 < 50,
            decreases 180 - k,
        {
            let c: (u8, u8) = try_camp(anchor, k);
            if tiles.len() < need && !t.is_wall(c.0, c.1) && !has_tile(&tiles, c) {
                tiles.push(c);
            }
            k = k + 1;
        }
        if tiles.len() == 0 {
            return None;
        }
        let ghost want = Seq::new(
            camp_bodies(grade).len(),
            |i: int| camper(camp_of(t@, grade), camp_bodies(grade), i),
        );
        let mut out: Vec<DefenderSpot> = Vec::new();
        let mut i: usize = 0;
        while i < bodies.len()
            invariant
                i <= bodies@.len() <= 6,
                bodies@ == camp_bodies(grade),
                tiles@ == camp_of(t@, grade),
                tiles@.len() > 0,
                forall|j: int|
                    0 <= j < tiles@.len() ==> (#[trigger] tiles@[j]).0 < 50 && tiles@[j].1 < 50,
                want == Seq::new(
                    camp_bodies(grade).len(),
                    |j: int| camper(camp_of(t@, grade), camp_bodies(grade), j),
                ),
                out@ == want.take(i as int),
            decreases bodies.len() - i,
        {
            let c: (u8, u8) = tiles[i % tiles.len()];
            assert(tiles@[i as int % tiles@.len() as int] == c);
            out.push(
                DefenderSpot {
                    id: DEFENDER_ID_BASE + i as u32,
                    pos: pos_in((-6, -6), c.0, c.1),
                    body: bodies[i],
                },
            );
            i = i + 1;
            assert(out@ =~= want.take(i as int));
        }
        assert(out@ =~= want);
        Some(out)
    }
}

// ── What a raid goes by ────────────────────────────────────────────────────

/// A shot does what the table says for its range; past the end it does what the last entry
/// says.
pub proof fn a_shot_goes_by_the_table(table: Seq<u32>, range: int)
    requires
        table.len() > 0,
        range >= 0,
    ensures
        range < table.len() ==> shot(table, range) == table[range],
        range >= table.len() ==> shot(table, range) == table[table.len() - 1],
{
}

/// One more tower adds its shot to the volley.
pub proof fn one_more_tower_adds_its_shot(
    towers: Seq<SimTower>,
    t: SimTower,
    table: Seq<u32>,
    c: SimCreep,
)
    ensures
        volley(towers.push(t), table, c) == volley(towers, table, c) + shot(
            table,
            t.pos.tiles_to(c.pos),
        ),
        volley(seq![], table, c) == 0,
{
    let g = towers.push(t);
    assert(Seq::new(g.len(), |i: int| shot(table, g[i].pos.tiles_to(c.pos)) as int).drop_last()
        =~= Seq::new(towers.len(), |i: int| shot(table, towers[i].pos.tiles_to(c.pos)) as int));
    let e = Seq::<SimTower>::empty();
    assert(Seq::new(e.len(), |i: int| shot(table, e[i].pos.tiles_to(c.pos)) as int) =~= Seq::<
        int,
    >::empty());
}

/// A hostile has a hit left and is not the defender's; an armed tower has a hit left, is the
/// defender's and has ten energy, nine being too few.
pub proof fn hostiles_and_armed_towers(c: SimCreep, t: SimTower, defender: PlayerId)
    ensures
        hostile(defender)(c) <==> c.hits >= 1 && c.owner != defender,
        armed(defender)(t) <==> t.hits >= 1 && t.owner == defender && t.energy > 9,
        living_tower()(t) <==> t.hits >= 1,
{
}

/// The towers concentrate on the hostile that takes the most, and of several that take as
/// much on the one with the lowest id.
pub proof fn focus_is_on_the_lowest_id_of_the_most_hit(
    towers: Seq<SimTower>,
    table: Seq<u32>,
    h: Seq<SimCreep>,
    i: int,
)
    requires
        0 <= i < h.len(),
    ensures
        focus(towers, table, h) matches Some(f) && (volley(towers, table, f) > volley(
            towers,
            table,
            h[i],
        ) || (volley(towers, table, f) == volley(towers, table, h[i]) && f.id <= h[i].id)),
    decreases h.len(),
{
    let d = h.drop_last();
    if d.len() > 0 {
        focus_is_on_the_lowest_id_of_the_most_hit(towers, table, d, if i < d.len() {
            i
        } else {
            0
        });
    } else {
        assert(focus(towers, table, d) is None);
    }
    assert(h[h.len() - 1] == h.last());
}

/// Every armed tower fires at the focus, and at nothing else; without a hostile none fires.
pub proof fn all_towers_fire_at_the_focus(
    world: CombatWorld,
    defender: PlayerId,
    table: Seq<u32>,
    i: int,
)
    requires
        0 <= i < world.towers@.len(),
    ensures
        ({
            let orders = focus_orders(world, defender, table);
            let h = world.creeps@.filter(hostile(defender));
            &&& h.len() == 0 ==> orders.len() == 0
            &&& h.len() > 0 ==> orders.len() == world.towers@.filter(armed(defender)).len()
            &&& h.len() > 0 && world.towers@[i].hits >= 1 && world.towers@[i].owner == defender
                && world.towers@[i].energy >= 10 ==> exists|k: int|
                0 <= k < orders.len() && (#[trigger] orders[k]).tower == world.towers@[i].id
                    && orders[k].target == focus(
                    world.towers@.filter(armed(defender)),
                    table,
                    h,
                )->0.id
        }),
{
    let h = world.creeps@.filter(hostile(defender));
    let f = world.towers@.filter(armed(defender));
    if h.len() > 0 {
        focus_takes_the_most(f, table, h, 0);
        if armed(defender)(world.towers@[i]) {
            world.towers@.lemma_filter_contains(armed(defender), i);
            let k = choose|k: int| 0 <= k < f.len() && f[k] == world.towers@[i];
            assert(focus_orders(world, defender, table)[k].tower == world.towers@[i].id);
        }
    }
}

/// The breach is the strongest rampart within a tile of the objective, whoever else stands
/// farther off; without one it is nothing.
pub proof fn the_strongest_guard_is_the_breach(s: Seq<SimStructure>, o: Objective, i: int)
    requires
        0 <= i < s.len(),
    ensures
        s[i].kind is Rampart && s[i].pos.tiles_to(o.pos) <= 1 ==> strongest_guard(s, o)
            >= s[i].hits,
        strongest_guard(s, o) > 0 ==> exists|k: int|
            0 <= k < s.len() && (#[trigger] s[k]).kind is Rampart && s[k].pos.tiles_to(o.pos) <= 1
                && s[k].hits == strongest_guard(s, o),
    decreases s.len(),
{
    let d = s.drop_last();
    if d.len() > 0 {
        the_strongest_guard_is_the_breach(d, o, if i < d.len() {
            i
        } else {
            0
        });
        if strongest_guard(d, o) > 0 {
            let k = choose|k: int|
                0 <= k < d.len() && (#[trigger] d[k]).kind is Rampart && d[k].pos.tiles_to(o.pos)
                    <= 1 && d[k].hits == strongest_guard(d, o);
            assert(s[k] == d[k]);
        }
    } else {
        assert(strongest_guard(d, o) == 0);
    }
    assert(s[s.len() - 1] == s.last());
}

/// The breach is reckoned twice over, as far as the numbers go.
pub proof fn a_breach_is_reckoned_twice(h: u32)
    ensures
        h <= 0x7fff_ffff ==> doubled(h) == h + h,
        h > 0x7fff_ffff ==> doubled(h) == 0xffff_ffff,
{
}

/// One more defender adds its powers to the garrison, its heal twelvefold, and its full hits
/// whatever it has left.
pub proof fn one_more_defender_adds_to_the_garrison(s: Seq<SimCreep>, c: SimCreep)
    ensures
        boosted_heal(s.push(c)) == boosted_heal(s) + 12 * c.heal_power,
        full_hits(s.push(c)) == full_hits(s) + c.hits_max,
        boosted_heal(seq![]) == 0 && full_hits(seq![]) == 0,
        garrison(seq![]) is None,
        garrison(s.push(c)) is Some,
        garrison_fits(s) && s.len() > 0 ==> garrison(s)->0.heal == boosted_heal(s) && garrison(
            s,
        )->0.hits == full_hits(s) && garrison(s)->0.count == s.len() && garrison(s)->0.dps
            == force_dps(s),
{
    let g = s.push(c);
    assert(Seq::new(g.len(), |i: int| g[i].heal_power * HEAL_POWER).drop_last() =~= Seq::new(
        s.len(),
        |i: int| s[i].heal_power * HEAL_POWER,
    ));
    assert(Seq::new(g.len(), |i: int| g[i].hits_max as int).drop_last() =~= Seq::new(
        s.len(),
        |i: int| s[i].hits_max as int,
    ));
    let e = Seq::<SimCreep>::empty();
    assert(Seq::new(e.len(), |i: int| e[i].heal_power * HEAL_POWER) =~= Seq::<int>::empty());
    assert(Seq::new(e.len(), |i: int| e[i].hits_max as int) =~= Seq::<int>::empty());
    if garrison_fits(s) {
        lemma_total_bound(Seq::new(s.len(), |i: int| creep_dps(s[i])), 0);
        lemma_total_bound(Seq::new(s.len(), |i: int| s[i].heal_power * HEAL_POWER), 0);
        lemma_total_bound(Seq::new(s.len(), |i: int| s[i].hits_max as int), 0);
    }
}

/// The sizing is told the objective's hits as they stand, and a whole core's where it is
/// gone.
pub proof fn sizing_is_told_of_the_core(r: AssaultInputs, s: Scenario, h: u32)
    requires
        is_assault_inputs(r, s),
    ensures
        hits_of(s.world.structures@, s.objectives@[0].id) == Some(h) ==> r.objective_hits == h,
        hits_of(s.world.structures@, s.objectives@[0].id) is None ==> r.objective_hits == 100_000,
        r.towers@.len() == s.world.towers@.filter(living_tower()).len(),
        r.enemy is None <==> s.world.creeps@.filter(fighting(s.defender_owner)).len() == 0,
{
}

/// The core's fall is a kill, even where the squad died over it; a wiped squad in front of a
/// standing core is a wipe; every other end is a timeout, which says how near it came.
pub proof fn a_fight_is_graded_by_the_core(
    stop: StopReason,
    ticks: u32,
    attacker: PlayerId,
    other: PlayerId,
    near: bool,
)
    requires
        other != attacker,
    ensures
        graded(stop, ticks, attacker, false, near) == (RungOutcome::Killed { ticks }),
        graded(StopReason::SideWiped(attacker), ticks, attacker, true, near) == (
        RungOutcome::AttackerWiped { ticks }),
        graded(StopReason::SideWiped(other), ticks, attacker, true, near) == (
        RungOutcome::Timeout { reached: near }),
        graded(StopReason::Timeout, ticks, attacker, true, near) == (RungOutcome::Timeout {
            reached: near,
        }),
        graded(StopReason::ObjectivesComplete, ticks, attacker, true, near) == (
        RungOutcome::Timeout { reached: near }),
{
}

/// A camp grows with its grade: two shooters, twice as many, four boosted ones with two
/// strikers, six fully boosted ones.
pub proof fn a_camp_grows_with_its_grade(i: int)
    ensures
        camp_bodies(1).len() == 2 && camp_bodies(2).len() == 4,
        camp_bodies(3).len() == 6 && camp_bodies(4).len() == 6,
        0 <= i < 2 ==> camp_bodies(1)[i] is RangedCamper,
        0 <= i < 4 ==> camp_bodies(2)[i] is RangedCamper,
        0 <= i < 4 ==> camp_bodies(3)[i] is BoostedRanger,
        4 <= i < 6 ==> camp_bodies(3)[i] is BoostedDefender,
        0 <= i < 6 ==> camp_bodies(4)[i] is FullBoostedRanger,
{
}

/// A row counts as open where both border tiles are: every such row inside the border is
/// listed, nothing else is, and in order.
pub proof fn open_rows_are_the_open_ones(t: TerrainView, n: int, y: int, i: int, j: int)
    requires
        1 <= n <= 49,
    ensures
        open_rows(t, n).contains(y as u8) && 0 <= y < 256 <==> 1 <= y < n && !t.wall_at(0, y)
            && !t.wall_at(49, y),
        0 <= i < j < open_rows(t, n).len() ==> open_rows(t, n)[i] < open_rows(t, n)[j],
        0 <= i < open_rows(t, n).len() ==> 1 <= open_rows(t, n)[i] < n && !t.wall_at(
            0,
            open_rows(t, n)[i] as int,
        ) && !t.wall_at(49, open_rows(t, n)[i] as int),
    decreases n,
{
    if n > 1 {
        let before = open_rows(t, n - 1);
        let after = open_rows(t, n);
        open_rows_are_the_open_ones(t, n - 1, y, i, j);
        if open_row(t, n - 1) {
            assert(after[before.len() as int] == (n - 1) as u8);
            if j == before.len() && 0 <= i < j {
                open_rows_are_the_open_ones(t, n - 1, y, i, i);
            }
            if before.contains(y as u8) {
                let k = choose|k: int| 0 <= k < before.len() && before[k] == y as u8;
                assert(after[k] == y as u8);
            }
            if after.contains(y as u8) && 0 <= y < 256 {
                let k = choose|k: int| 0 <= k < after.len() && after[k] == y as u8;
                if k < before.len() {
                    assert(before[k] == y as u8);
                }
            }
        }
    } else {
        assert(open_rows(t, n).len() == 0);
    }
}

/// A camp is centred on the middle of the open rows, and on the room's middle where none is
/// open.
pub proof fn a_camp_is_centred(t: TerrainView)
    ensures
        open_rows(t, 49).len() == 0 ==> anchor_row(t) == 25,
        open_rows(t, 49).len() > 0 ==> {
            let mid = open_rows(t, 49).len() as int / 2;
            &&& 2 * mid <= open_rows(t, 49).len() <= 2 * mid + 1
            &&& anchor_row(t) == open_rows(t, 49)[mid]
            &&& !t.wall_at(0, anchor_row(t) as int) && !t.wall_at(49, anchor_row(t) as int)
        },
{
    if open_rows(t, 49).len() > 0 {
        let mid = open_rows(t, 49).len() as int / 2;
        open_rows_are_the_open_ones(t, 49, 0, mid, mid);
    }
}

/// Every try of a camp is in one of the three columns near the border and inside it, and
/// every ninth try reaches a row farther from the anchor.
pub proof fn a_camp_fans_out(anchor: u8, k: int)
    requires
        1 <= anchor < 49,
        0 <= k < 180,
    ensures
        ({
            let (x, y) = camp_try(anchor, k);
            &&& 45 <= x <= 47
            &&& 1 <= y <= 48
            &&& y - anchor <= k / 9 && anchor - y <= k / 9
            &&& k < 9 ==> y == anchor
            &&& k % 3 == 0 ==> y == anchor
            &&& k % 3 == 1 && anchor + k / 9 <= 48 ==> y == anchor + k / 9
            &&& k % 3 == 2 && anchor - k / 9 >= 1 ==> y == anchor - k / 9
            &&& x == 45 + (k / 3) % 3
        }),
{
}

/// A camper has its own id and its own body; where the tiles are too few they are shared in
/// turn.
pub proof fn campers_are_put_down_in_turn(tiles: Seq<(u8, u8)>, bodies: Seq<BodyKind>, i: int)
    requires
        0 < tiles.len() <= 6,
        0 <= i < bodies.len() <= 6,
    ensures
        camper(tiles, bodies, i).id == 10_000 + i,
        camper(tiles, bodies, i).body == bodies[i],
        i < tiles.len() ==> camper(tiles, bodies, i).pos == tile_in(
            staging_room_west(),
            tiles[i].0 as int,
            tiles[i].1 as int,
        ),
{
    if i < tiles.len() {
        assert(i % tiles.len() as int == i) by (nonlinear_arith)
            requires
                0 <= i < tiles.len(),
        ;
    }
}

/// The room that is camped in: the one west of where an assault gathers.
pub open spec fn staging_room_west() -> (i32, i32) {
    ((staging_room().0 - 1) as i32, staging_room().1)
}

/// A camp is looked for in 180 tries around its row, and has at most as many tiles as bodies.
pub proof fn a_camp_is_looked_for_in_turn(t: TerrainView, grade: u8)
    ensures
        camp_of(t, grade) == camp_tiles(t, anchor_row(t), camp_bodies(grade).len(), 180),
        camp_of(t, grade).len() <= camp_bodies(grade).len(),
{
    campers_stand_apart(t, anchor_row(t), camp_bodies(grade).len(), 180);
}

} // verus!
