//! What a scenario's world shows of its defense: towers, ramparts, the objective's
//! hits, and the force that its creeps make up.

use crate::colony::lemma_filter_take;
use crate::position::{tile_range, WPos};
use crate::scenario::{Objective, Scenario};
use crate::world::{CombatWorld, PlayerId, SimCreep, SimStructure, SimTower, StructureKind};
use vstd::prelude::*;

verus! {

/// Energy that a tower needs to act.
pub const TOWER_ENERGY_COST: u32 = 10;

/// A tower as the assault meets it.
#[derive(Clone, Copy, Debug, PartialEq, Eq, Structural)]
pub struct TowerThreat {
    pub range_to_assault: u32,
    pub energy: u32,
}

/// The structures that an assault has to beat.
#[derive(Debug)]
pub struct DefenseProfile {
    pub towers: Vec<TowerThreat>,
    /// Hits of all the ramparts together.
    pub breach_hits: u32,
    pub objective_hits: u32,
    /// Range at which the maintaining tower repairs the first rampart.
    pub repair_range: Option<u32>,
    pub safe_mode: bool,
}

/// A side's living creeps, taken together.
#[derive(Clone, Copy, Debug, PartialEq, Eq, Structural)]
pub struct EnemyForce {
    pub dps: u64,
    pub heal: u64,
    pub hits: u32,
    pub count: u32,
}

/// The sum of a sequence.
pub open spec fn total(s: Seq<int>) -> int
    decreases s.len(),
{
    if s.len() == 0 {
        0
    } else {
        total(s.drop_last()) + s.last()
    }
}

pub open spec fn energized(defender: PlayerId) -> spec_fn(SimTower) -> bool {
    |t: SimTower| t.owner == defender && t.alive() && t.energy >= TOWER_ENERGY_COST
}

pub open spec fn shielding(defender: PlayerId) -> spec_fn(SimStructure) -> bool {
    |s: SimStructure|
        s.kind == StructureKind::Rampart && s.owner == Some(defender) && s.alive()
}

pub open spec fn fighting(owner: PlayerId) -> spec_fn(SimCreep) -> bool {
    |c: SimCreep| c.fights_for(owner)
}

pub open spec fn rampart_hits(s: Seq<SimStructure>) -> int {
    total(Seq::new(s.len(), |i: int| s[i].hits as int))
}

/// The hits of the first structure with this id.
pub open spec fn hits_of(s: Seq<SimStructure>, id: u32) -> Option<u32>
    decreases s.len(),
{
    if s.len() == 0 {
        None
    } else {
        match hits_of(s.drop_last(), id) {
            Some(h) => Some(h),
            None => if s.last().id == id {
                Some(s.last().hits)
            } else {
                None
            },
        }
    }
}

pub open spec fn hits_or_zero(h: Option<u32>) -> u32 {
    match h {
        Some(h) => h,
        None => 0,
    }
}

pub open spec fn threats(towers: Seq<SimTower>, assault: WPos) -> Seq<TowerThreat> {
    Seq::new(
        towers.len(),
        |i: int|
            TowerThreat {
                range_to_assault: towers[i].pos.tiles_to(assault) as u32,
                energy: towers[i].energy,
            },
    )
}

/// The profile that the world shows.
pub open spec fn is_profile(
    p: DefenseProfile,
    world: CombatWorld,
    defender: PlayerId,
    obj: Objective,
) -> bool {
    let towers = world.towers@.filter(energized(defender));
    let ramparts = world.structures@.filter(shielding(defender));
    &&& p.towers@ == threats(towers, obj.assault_pos)
    &&& p.breach_hits == rampart_hits(ramparts)
    &&& p.objective_hits == hits_or_zero(hits_of(world.structures@, obj.id))
    &&& p.repair_range == if rampart_hits(ramparts) > 0 && ramparts.len() > 0 && towers.len() > 0 {
        Some(towers.last().pos.tiles_to(ramparts[0].pos) as u32)
    } else {
        None
    }
    &&& p.safe_mode == (world.safe_mode_owner == Some(defender))
}

pub open spec fn creep_dps(c: SimCreep) -> int {
    c.attack_power + c.ranged_attack_power
}

pub open spec fn force_dps(s: Seq<SimCreep>) -> int {
    total(Seq::new(s.len(), |i: int| creep_dps(s[i])))
}

pub open spec fn force_heal(s: Seq<SimCreep>) -> int {
    total(Seq::new(s.len(), |i: int| s[i].heal_power as int))
}

pub open spec fn force_hits(s: Seq<SimCreep>) -> int {
    total(Seq::new(s.len(), |i: int| s[i].hits as int))
}

/// The sums fit their types.
pub open spec fn force_fits(s: Seq<SimCreep>) -> bool {
    &&& force_dps(s) <= u64::MAX
    &&& force_heal(s) <= u64::MAX
    &&& force_hits(s) <= u32::MAX
    &&& s.len() <= u32::MAX
}

pub open spec fn force_of(s: Seq<SimCreep>) -> EnemyForce {
    EnemyForce {
        dps: force_dps(s) as u64,
        heal: force_heal(s) as u64,
        hits: force_hits(s) as u32,
        count: s.len() as u32,
    }
}

/// Grouped or healing, a force covers its own: it is to be over-matched.
pub open spec fn is_coordinated(f: EnemyForce) -> bool {
    f.count > 1 || f.heal > 0
}

proof fn lemma_total_take(s: Seq<int>, i: int)
    requires
        0 <= i < s.len(),
    ensures
        total(s.take(i + 1)) == total(s.take(i)) + s[i],
{
    assert(s.take(i + 1).drop_last() =~= s.take(i));
}

/// Partial sums of what is not negative grow.
pub proof fn lemma_total_bound(s: Seq<int>, i: int)
    requires
        0 <= i <= s.len(),
        forall|k: int| 0 <= k < s.len() ==> 0 <= #[trigger] s[k],
    ensures
        0 <= total(s.take(i)) <= total(s),
    decreases s.len(),
{
    if i == s.len() {
        assert(s.take(i) =~= s);
        if s.len() > 0 {
            lemma_total_bound(s.drop_last(), i - 1);
            assert(s.drop_last().take(i - 1) =~= s.drop_last());
        }
    } else {
        assert(s.drop_last().take(i) =~= s.take(i));
        lemma_total_bound(s.drop_last(), i);
    }
}

fn energized_towers(world: &CombatWorld, defender: PlayerId) -> (r: Vec<SimTower>)
    ensures
        r@ == world.towers@.filter(energized(defender)),
{
    let mut out: Vec<SimTower> = Vec::new();
    let mut i: usize = 0;
    proof {
        reveal(Seq::filter);
        assert(world.towers@.take(0) =~= Seq::<SimTower>::empty());
    }
    while i < world.towers.len()
        invariant
            i <= world.towers@.len(),
            out@ == world.towers@.take(i as int).filter(energized(defender)),
        decreases world.towers.len() - i,
    {
        proof {
            lemma_filter_take(world.towers@, energized(defender), i as int);
        }
        let t: SimTower = world.towers[i];
        if t.owner == defender && t.is_alive() && t.energy >= TOWER_ENERGY_COST {
            out.push(t);
        }
        i = i + 1;
    }
    assert(world.towers@.take(i as int) =~= world.towers@);
    out
}

fn shielding_ramparts(world: &CombatWorld, defender: PlayerId) -> (r: Vec<SimStructure>)
    ensures
        r@ == world.structures@.filter(shielding(defender)),
{
    let mut out: Vec<SimStructure> = Vec::new();
    let mut i: usize = 0;
    proof {
        reveal(Seq::filter);
        assert(world.structures@.take(0) =~= Seq::<SimStructure>::empty());
    }
    while i < world.structures.len()
        invariant
            i <= world.structures@.len(),
            out@ == world.structures@.take(i as int).filter(shielding(defender)),
        decreases world.structures.len() - i,
    {
        proof {
            lemma_filter_take(world.structures@, shielding(defender), i as int);
        }
        let s: SimStructure = world.structures[i];
        let owned: bool = match s.owner {
            Some(o) => o == defender,
            None => false,
        };
        if s.kind == StructureKind::Rampart && owned && s.is_alive() {
            out.push(s);
        }
        i = i + 1;
    }
    assert(world.structures@.take(i as int) =~= world.structures@);
    out
}

fn sum_hits(s: &Vec<SimStructure>) -> (r: u32)
    requires
        rampart_hits(s@) <= u32::MAX,
    ensures
        r == rampart_hits(s@),
{
    let ghost h = Seq::new(s@.len(), |i: int| s@[i].hits as int);
    let mut sum: u32 = 0;
    let mut i: usize = 0;
    assert(h.take(0) =~= Seq::<int>::empty());
    while i < s.len()
        invariant
            i <= s@.len(),
            h == Seq::new(s@.len(), |k: int| s@[k].hits as int),
            total(h) <= u32::MAX,
            sum == total(h.take(i as int)),
        decreases s.len() - i,
    {
        proof {
            lemma_total_take(h, i as int);
            lemma_total_bound(h, i as int + 1);
        }
        sum = sum + s[i].hits;
        i = i + 1;
    }
    assert(h.take(i as int) =~= h);
    sum
}

/// The hits of the first structure with this id.
pub fn structure_hits(s: &Vec<SimStructure>, id: u32) -> (r: Option<u32>)
    ensures
        r == hits_of(s@, id),
{
    let mut found: Option<u32> = None;
    let mut i: usize = 0;
    assert(s@.take(0) =~= Seq::<SimStructure>::empty());
    while i < s.len()
        invariant
            i <= s@.len(),
            found == hits_of(s@.take(i as int), id),
        decreases s.len() - i,
    {
        assert(s@.take(i as int + 1).drop_last() =~= s@.take(i as int));
        if found.is_none() && s[i].id == id {
            found = Some(s[i].hits);
        }
        i = i + 1;
    }
    assert(s@.take(i as int) =~= s@);
    found
}

proof fn lemma_filter_in_world(world: CombatWorld, defender: PlayerId)
    requires
        world.wf(),
    ensures
        forall|i: int|
            0 <= i < world.towers@.filter(energized(defender)).len() ==> (
            #[trigger] world.towers@.filter(energized(defender))[i]).pos.in_world(),
        forall|i: int|
            0 <= i < world.structures@.filter(shielding(defender)).len() ==> (
            #[trigger] world.structures@.filter(shielding(defender))[i]).pos.in_world(),
{
    let t = world.towers@.filter(energized(defender));
    assert forall|i: int| 0 <= i < t.len() implies (#[trigger] t[i]).pos.in_world() by {
        world.towers@.lemma_filter_contains_rev(energized(defender), t[i]);
    }
    let s = world.structures@.filter(shielding(defender));
    assert forall|i: int| 0 <= i < s.len() implies (#[trigger] s[i]).pos.in_world() by {
        world.structures@.lemma_filter_contains_rev(shielding(defender), s[i]);
    }
}

/// The profile that the world shows: every energized tower with its range to the
/// assault tile, the ramparts' hits together, and the objective's hits.
pub fn derive_profile(world: &CombatWorld, defender: PlayerId, obj: &Objective) -> (p:
    DefenseProfile)
    requires
        world.wf(),
        obj.wf(),
        rampart_hits(world.structures@.filter(shielding(defender))) <= u32::MAX,
    ensures
        is_profile(p, *world, defender, *obj),
{
    let towers: Vec<SimTower> = energized_towers(world, defender);
    let ramparts: Vec<SimStructure> = shielding_ramparts(world, defender);
    proof {
        lemma_filter_in_world(*world, defender);
    }
    let breach_hits: u32 = sum_hits(&ramparts);
    let objective_hits: u32 = match structure_hits(&world.structures, obj.id) {
        Some(h) => h,
        None => 0,
    };
    let repair_range: Option<u32> = if breach_hits > 0 && ramparts.len() > 0 && towers.len() > 0 {
        Some(tile_range(towers[towers.len() - 1].pos, ramparts[0].pos))
    } else {
        None
    };
    let ghost want = threats(towers@, obj.assault_pos);
    let mut out: Vec<TowerThreat> = Vec::new();
    let mut i: usize = 0;
    while i < towers.len()
        invariant
            i <= towers@.len(),
            obj.assault_pos.in_world(),
            forall|k: int| 0 <= k < towers@.len() ==> (#[trigger] towers@[k]).pos.in_world(),
            want == threats(towers@, obj.assault_pos),
            out@ == want.take(i as int),
        decreases towers.len() - i,
    {
        out.push(
            TowerThreat {
                range_to_assault: tile_range(towers[i].pos, obj.assault_pos),
                energy: towers[i].energy,
            },
        );
        i = i + 1;
        assert(out@ =~= want.take(i as int));
    }
    assert(out@ =~= want);
    let safe_mode: bool = match world.safe_mode_owner {
        Some(o) => o == defender,
        None => false,
    };
    DefenseProfile { towers: out, breach_hits, objective_hits, repair_range, safe_mode }
}

/// The living creeps of a side, in order.
pub fn fighters(world: &CombatWorld, owner: PlayerId) -> (r: Vec<SimCreep>)
    ensures
        r@ == world.creeps@.filter(fighting(owner)),
{
    let mut out: Vec<SimCreep> = Vec::new();
    let mut i: usize = 0;
    proof {
        reveal(Seq::filter);
        assert(world.creeps@.take(0) =~= Seq::<SimCreep>::empty());
    }
    while i < world.creeps.len()
        invariant
            i <= world.creeps@.len(),
            out@ == world.creeps@.take(i as int).filter(fighting(owner)),
        decreases world.creeps.len() - i,
    {
        proof {
            lemma_filter_take(world.creeps@, fighting(owner), i as int);
        }
        if world.creeps[i].is_fighting_for(owner) {
            out.push(world.creeps[i]);
        }
        i = i + 1;
    }
    assert(world.creeps@.take(i as int) =~= world.creeps@);
    out
}

fn sum_force(s: &Vec<SimCreep>) -> (f: EnemyForce)
    requires
        force_fits(s@),
    ensures
        f == force_of(s@),
{
    let ghost d = Seq::new(s@.len(), |i: int| creep_dps(s@[i]));
    let ghost h = Seq::new(s@.len(), |i: int| s@[i].heal_power as int);
    let ghost t = Seq::new(s@.len(), |i: int| s@[i].hits as int);
    let mut dps: u64 = 0;
    let mut heal: u64 = 0;
    let mut hits: u32 = 0;
    let mut i: usize = 0;
    assert(d.take(0) =~= Seq::<int>::empty());
    assert(h.take(0) =~= Seq::<int>::empty());
    assert(t.take(0) =~= Seq::<int>::empty());
    while i < s.len()
        invariant
            i <= s@.len(),
            d == Seq::new(s@.len(), |k: int| creep_dps(s@[k])),
            h == Seq::new(s@.len(), |k: int| s@[k].heal_power as int),
            t == Seq::new(s@.len(), |k: int| s@[k].hits as int),
            total(d) <= u64::MAX,
            total(h) <= u64::MAX,
            total(t) <= u32::MAX,
            dps == total(d.take(i as int)),
            heal == total(h.take(i as int)),
            hits == total(t.take(i as int)),
        decreases s.len() - i,
    {
        proof {
            lemma_total_take(d, i as int);
            lemma_total_take(h, i as int);
            lemma_total_take(t, i as int);
            lemma_total_bound(d, i as int + 1);
            lemma_total_bound(h, i as int + 1);
            lemma_total_bound(t, i as int + 1);
        }
        let c: SimCreep = s[i];
        let power: u64 = c.attack_power as u64 + c.ranged_attack_power as u64;
        dps = dps + power;
        heal = heal + c.heal_power as u64;
        hits = hits + c.hits;
        i = i + 1;
    }
    assert(d.take(i as int) =~= d);
    assert(h.take(i as int) =~= h);
    assert(t.take(i as int) =~= t);
    EnemyForce { dps, heal, hits, count: s.len() as u32 }
}

/// The defenders' living creeps taken together, and whether they are coordinated.
pub fn enemy_force_of(s: &Scenario) -> (r: (EnemyForce, bool))
    requires
        force_fits(s.world.creeps@.filter(fighting(s.defender_owner))),
    ensures
        r.0 == force_of(s.world.creeps@.filter(fighting(s.defender_owner))),
        r.1 == is_coordinated(r.0),
{
    let f: EnemyForce = sum_force(&fighters(&s.world, s.defender_owner));
    (f, f.count > 1 || f.heal > 0)
}

/// The defenders' force, if it deals any damage.
pub fn defender_force(s: &Scenario) -> (r: Option<EnemyForce>)
    requires
        force_fits(s.world.creeps@.filter(fighting(s.defender_owner))),
    ensures
        ({
            let f = force_of(s.world.creeps@.filter(fighting(s.defender_owner)));
            r == if f.dps > 0 {
                Some(f)
            } else {
                None
            }
        }),
        r matches Some(f) ==> f.dps >= 1,
{
    let f: EnemyForce = enemy_force_of(s).0;
    if f.dps > 0 {
        Some(f)
    } else {
        None
    }
}

/// Whether an observed force is coordinated; without one it is not.
pub fn coordination(force: Option<EnemyForce>) -> (r: bool)
    ensures
        r == (force matches Some(f) && is_coordinated(f)),
        force is None ==> !r,
        force matches Some(f) && (f.count >= 2 || f.heal >= 1) ==> r,
{
    match force {
        Some(f) => f.count > 1 || f.heal > 0,
        None => false,
    }
}

/// The per-member energy that a force is sized at: the chosen cap, but never more
/// than the home affords.
pub fn sizing_energy(cap: u32, home: u32) -> (r: u32)
    ensures
        r == if cap <= home {
            cap
        } else {
            home
        },
        r <= cap && r <= home,
        r == cap || r == home,
{
    if cap <= home {
        cap
    } else {
        home
    }
}

/// A world without defender creeps shows no force.
pub proof fn creep_free_world_has_no_force(s: Scenario)
    requires
        !s.world.stands(s.defender_owner),
    ensures
        force_of(s.world.creeps@.filter(fighting(s.defender_owner))).dps == 0,
{
    let f = s.world.creeps@.filter(fighting(s.defender_owner));
    if f.len() > 0 {
        assert(f.contains(f[0]));
        s.world.creeps@.lemma_filter_contains_rev(fighting(s.defender_owner), f[0]);
        s.world.creeps@.lemma_filter_pred(fighting(s.defender_owner), 0);
        assert(false);
    }
    assert(Seq::new(f.len(), |i: int| creep_dps(f[i])) =~= Seq::<int>::empty());
}

// ── What the profile shows ─────────────────────────────────────────────────

proof fn lemma_filter_push<A>(s: Seq<A>, x: A, p: spec_fn(A) -> bool)
    ensures
        p(x) ==> s.push(x).filter(p) == s.filter(p).push(x),
        !p(x) ==> s.push(x).filter(p) == s.filter(p),
{
    reveal(Seq::filter);
    assert(s.push(x).drop_last() =~= s);
}

/// The first that passes comes first, the last that passes last.
proof fn lemma_filter_ends<A>(s: Seq<A>, p: spec_fn(A) -> bool, i: int)
    requires
        0 <= i < s.len(),
        p(s[i]),
    ensures
        s.filter(p).len() > 0,
        (forall|k: int| 0 <= k < i ==> !p(#[trigger] s[k])) ==> s.filter(p)[0] == s[i],
        (forall|k: int| i < k < s.len() ==> !p(#[trigger] s[k])) ==> s.filter(p).last() == s[i],
    decreases s.len(),
{
    reveal(Seq::filter);
    let d = s.drop_last();
    let n = s.len() - 1;
    if i < n {
        lemma_filter_ends(d, p, i);
        if forall|k: int| 0 <= k < i ==> !p(#[trigger] s[k]) {
            assert forall|k: int| 0 <= k < i implies !p(#[trigger] d[k]) by {
                assert(d[k] == s[k]);
            }
        }
        if forall|k: int| i < k < s.len() ==> !p(#[trigger] s[k]) {
            assert(!p(s[n]));
            assert forall|k: int| i < k < d.len() implies !p(#[trigger] d[k]) by {
                assert(d[k] == s[k]);
            }
        }
    } else {
        if forall|k: int| 0 <= k < i ==> !p(#[trigger] s[k]) {
            assert forall|k: int| 0 <= k < d.len() implies !p(#[trigger] d[k]) by {
                assert(d[k] == s[k]);
            }
            lemma_filter_none(d, p);
        }
    }
}

proof fn lemma_filter_none<A>(s: Seq<A>, p: spec_fn(A) -> bool)
    requires
        forall|k: int| 0 <= k < s.len() ==> !p(#[trigger] s[k]),
    ensures
        s.filter(p).len() == 0,
    decreases s.len(),
{
    reveal(Seq::filter);
    if s.len() > 0 {
        let d = s.drop_last();
        assert(!p(s[s.len() - 1]));
        assert forall|k: int| 0 <= k < d.len() implies !p(#[trigger] d[k]) by {
            assert(d[k] == s[k]);
        }
        lemma_filter_none(d, p);
    }
}

/// A tower threatens when it is the defender's, has a hit left and ten energy or more; nine
/// are not enough.
pub proof fn a_tower_threatens_on_ten_energy(t: SimTower, defender: PlayerId)
    ensures
        energized(defender)(t) <==> t.owner == defender && t.hits >= 1 && t.energy > 9,
{
}

/// A rampart shields its own side while it has hits; walls and others' ramparts do not.
pub proof fn a_rampart_shields_its_side(s: SimStructure, defender: PlayerId)
    ensures
        shielding(defender)(s) ==> s.kind is Rampart && s.owner is Some && s.owner->0 == defender
            && s.hits >= 1,
        s.kind is Rampart && s.owner == Some(defender) && s.hits >= 1 ==> shielding(defender)(s),
{
}

/// Every tower that threatens is in the profile with its range to the assault tile and its
/// energy, and nothing else is.
pub proof fn the_profile_lists_the_threats(
    p: DefenseProfile,
    world: CombatWorld,
    defender: PlayerId,
    obj: Objective,
    i: int,
    t: int,
)
    requires
        world.wf(),
        obj.wf(),
        is_profile(p, world, defender, obj),
        0 <= i < world.towers@.len(),
        0 <= t < p.towers@.len(),
    ensures
        world.towers@[i].owner == defender && world.towers@[i].hits >= 1
            && world.towers@[i].energy >= 10 ==> p.towers@.contains(
            TowerThreat {
                range_to_assault: world.towers@[i].pos.tiles_to(obj.assault_pos) as u32,
                energy: world.towers@[i].energy,
            },
        ),
        p.towers@[t].energy >= 10,
        exists|k: int|
            0 <= k < world.towers@.len() && (#[trigger] world.towers@[k]).owner == defender
                && world.towers@[k].hits >= 1 && world.towers@[k].energy == p.towers@[t].energy
                && world.towers@[k].pos.tiles_to(obj.assault_pos) as u32
                == p.towers@[t].range_to_assault,
{
    let f = world.towers@.filter(energized(defender));
    if energized(defender)(world.towers@[i]) {
        world.towers@.lemma_filter_contains(energized(defender), i);
        let j = choose|j: int| 0 <= j < f.len() && f[j] == world.towers@[i];
        assert(p.towers@[j] == threats(f, obj.assault_pos)[j]);
        assert(p.towers@.contains(p.towers@[j]));
    }
    world.towers@.lemma_filter_pred(energized(defender), t);
    assert(f.contains(f[t]));
    world.towers@.lemma_filter_contains_rev(energized(defender), f[t]);
    let k = choose|k: int| 0 <= k < world.towers@.len() && world.towers@[k] == f[t];
    assert(world.towers@[k].owner == defender);
    assert(p.towers@[t] == threats(f, obj.assault_pos)[t]);
}

/// One more structure adds its hits to the breach exactly where it shields.
pub proof fn one_more_rampart_adds_its_hits(
    s: Seq<SimStructure>,
    x: SimStructure,
    defender: PlayerId,
)
    ensures
        x.kind is Rampart && x.owner == Some(defender) ==> rampart_hits(
            s.push(x).filter(shielding(defender)),
        ) == rampart_hits(s.filter(shielding(defender))) + x.hits,
        !(x.kind is Rampart && x.owner == Some(defender)) ==> rampart_hits(
            s.push(x).filter(shielding(defender)),
        ) == rampart_hits(s.filter(shielding(defender))),
        rampart_hits(seq![]) == 0,
{
    let f = s.filter(shielding(defender));
    lemma_filter_push(s, x, shielding(defender));
    let g = f.push(x);
    assert(Seq::new(g.len(), |i: int| g[i].hits as int).drop_last() =~= Seq::new(
        f.len(),
        |i: int| f[i].hits as int,
    ));
    assert(total(Seq::new(g.len(), |i: int| g[i].hits as int)) == total(
        Seq::new(f.len(), |i: int| f[i].hits as int),
    ) + x.hits);
    let e = Seq::<SimStructure>::empty();
    assert(Seq::new(e.len(), |i: int| e[i].hits as int) =~= Seq::<int>::empty());
}

/// The objective shows the hits of the first structure with its id, and none where there is
/// no such structure.
pub proof fn the_profile_shows_the_objective(
    p: DefenseProfile,
    world: CombatWorld,
    defender: PlayerId,
    obj: Objective,
    i: int,
)
    requires
        is_profile(p, world, defender, obj),
        0 <= i <= world.structures@.len(),
        forall|k: int| 0 <= k < i ==> (#[trigger] world.structures@[k]).id != obj.id,
    ensures
        i < world.structures@.len() && world.structures@[i].id == obj.id ==> p.objective_hits
            == world.structures@[i].hits,
        i == world.structures@.len() ==> p.objective_hits == 0,
        p.safe_mode ==> world.safe_mode_owner is Some && world.safe_mode_owner->0 == defender,
        world.safe_mode_owner matches Some(o) && o == defender ==> p.safe_mode,
{
    lemma_hits_of_first(world.structures@, obj.id, i);
}

proof fn lemma_hits_of_first(s: Seq<SimStructure>, id: u32, i: int)
    requires
        0 <= i <= s.len(),
        forall|k: int| 0 <= k < i ==> (#[trigger] s[k]).id != id,
    ensures
        i < s.len() && s[i].id == id ==> hits_of(s, id) == Some(s[i].hits),
        i == s.len() ==> hits_of(s, id) is None,
    decreases s.len(),
{
    if s.len() > 0 {
        let d = s.drop_last();
        let n = s.len() - 1;
        assert forall|k: int| 0 <= k < i && k < n implies (#[trigger] d[k]).id != id by {
            assert(d[k] == s[k]);
        }
        if i < n {
            lemma_hits_of_first(d, id, i);
        } else {
            lemma_hits_of_first(d, id, n);
            if i == s.len() {
                assert(s[n].id != id);
            }
        }
    }
}

/// The last threatening tower repairs the first shielding rampart, from as far as they stand
/// apart; without a rampart or without a tower nothing is repaired.
pub proof fn the_last_tower_repairs_the_first_rampart(
    p: DefenseProfile,
    world: CombatWorld,
    defender: PlayerId,
    obj: Objective,
    t: int,
    r: int,
)
    requires
        is_profile(p, world, defender, obj),
        0 <= t < world.towers@.len(),
        world.towers@[t].owner == defender && world.towers@[t].hits >= 1
            && world.towers@[t].energy >= 10,
        forall|k: int|
            t < k < world.towers@.len() ==> !((#[trigger] world.towers@[k]).owner == defender
                && world.towers@[k].hits >= 1 && world.towers@[k].energy >= 10),
        0 <= r < world.structures@.len(),
        world.structures@[r].kind is Rampart && world.structures@[r].owner == Some(defender)
            && world.structures@[r].hits >= 1,
        forall|k: int|
            0 <= k < r ==> !((#[trigger] world.structures@[k]).kind is Rampart
                && world.structures@[k].owner == Some(defender) && world.structures@[k].hits >= 1),
    ensures
        p.repair_range == Some(
            world.towers@[t].pos.tiles_to(world.structures@[r].pos) as u32,
        ),
{
    let f = world.structures@.filter(shielding(defender));
    lemma_filter_ends(world.towers@, energized(defender), t);
    lemma_filter_ends(world.structures@, shielding(defender), r);
    let h = Seq::new(f.len(), |i: int| f[i].hits as int);
    lemma_total_bound(h, 1);
    assert(h.take(1).drop_last() =~= Seq::<int>::empty());
    assert(h.take(1).last() == f[0].hits as int);
    assert(total(Seq::<int>::empty()) == 0);
    assert(total(h.take(1)) == total(h.take(1).drop_last()) + h.take(1).last());
}

/// Nothing is repaired without a threatening tower or without a breach.
pub proof fn nothing_repairs_an_open_core(
    p: DefenseProfile,
    world: CombatWorld,
    defender: PlayerId,
    obj: Objective,
)
    requires
        is_profile(p, world, defender, obj),
    ensures
        p.towers@.len() == 0 ==> p.repair_range is None,
        p.breach_hits == 0 ==> p.repair_range is None,
{
}

/// One more fighter adds its powers and its hits to the force, and one to its count.
pub proof fn one_more_fighter_adds_its_force(s: Seq<SimCreep>, c: SimCreep)
    ensures
        force_dps(s.push(c)) == force_dps(s) + c.attack_power + c.ranged_attack_power,
        force_heal(s.push(c)) == force_heal(s) + c.heal_power,
        force_hits(s.push(c)) == force_hits(s) + c.hits,
        force_dps(seq![]) == 0 && force_heal(seq![]) == 0 && force_hits(seq![]) == 0,
        force_fits(s) ==> force_of(s).count == s.len() && force_of(s).dps == force_dps(s)
            && force_of(s).heal == force_heal(s) && force_of(s).hits == force_hits(s),
{
    let g = s.push(c);
    assert(Seq::new(g.len(), |i: int| creep_dps(g[i])).drop_last() =~= Seq::new(
        s.len(),
        |i: int| creep_dps(s[i]),
    ));
    assert(Seq::new(g.len(), |i: int| g[i].heal_power as int).drop_last() =~= Seq::new(
        s.len(),
        |i: int| s[i].heal_power as int,
    ));
    assert(Seq::new(g.len(), |i: int| g[i].hits as int).drop_last() =~= Seq::new(
        s.len(),
        |i: int| s[i].hits as int,
    ));
    let e = Seq::<SimCreep>::empty();
    assert(Seq::new(e.len(), |i: int| creep_dps(e[i])) =~= Seq::<int>::empty());
    assert(Seq::new(e.len(), |i: int| e[i].heal_power as int) =~= Seq::<int>::empty());
    assert(Seq::new(e.len(), |i: int| e[i].hits as int) =~= Seq::<int>::empty());
    if force_fits(s) {
        lemma_total_bound(Seq::new(s.len(), |i: int| creep_dps(s[i])), 0);
        lemma_total_bound(Seq::new(s.len(), |i: int| s[i].heal_power as int), 0);
        lemma_total_bound(Seq::new(s.len(), |i: int| s[i].hits as int), 0);
    }
}

/// Two fighters are coordinated, and so is one that heals; a lone one that does not heal is
/// not.
pub proof fn a_pair_or_a_healer_is_coordinated(f: EnemyForce)
    ensures
        f.count >= 2 ==> is_coordinated(f),
        f.heal >= 1 ==> is_coordinated(f),
        f.count <= 1 && f.heal == 0 ==> !is_coordinated(f),
{
}

} // verus!
