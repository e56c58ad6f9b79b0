//! Seeded generation of defended bases.

use crate::position::WPos;
use crate::rng::{
    draw_is_in_bounds, drawn_below, drawn_chance, drawn_in, next_state, seed_state, Rng,
};
use crate::scenario::{Objective, ObjectiveKind, Scenario};
use crate::text::{decimal, push_decimal};
use crate::world::{
    pos_in, tile_in, CombatWorld, PlayerId, SimStructure, SimTower, StructureKind,
};
use vstd::prelude::*;
use vstd::string::*;

verus! {

pub const ATTACKER: PlayerId = 0;

pub const DEFENDER: PlayerId = 1;

/// Structure ids start here, well above creep ids.
pub const STRUCTURE_ID_BASE: u32 = 1_000_000;

/// Hits of a tower.
pub const TOWER_HITS: u32 = 3000;

/// The room that bases are laid out in.
pub open spec fn base_room() -> (i32, i32) {
    (-2i32 as i32, -2i32 as i32)
}

/// Tiles within reach of both the rampart and the core, the focus first.
pub open spec fn front_layout() -> Seq<(u8, u8)> {
    seq![(24u8, 24u8), (25u8, 24u8), (24u8, 26u8), (25u8, 26u8)]
}

/// Tiles next to the focus.
pub open spec fn support_layout() -> Seq<(u8, u8)> {
    seq![(23u8, 23u8), (24u8, 23u8), (25u8, 23u8), (23u8, 24u8), (23u8, 25u8)]
}

pub open spec fn tower_layout() -> Seq<(u8, u8)> {
    seq![(24u8, 8u8), (24u8, 12u8), (24u8, 16u8), (20u8, 24u8), (28u8, 24u8), (24u8, 32u8)]
}

pub open spec fn energy_choices() -> Seq<u32> {
    seq![1300u32, 1800u32, 2300u32, 3300u32, 5600u32, 12_900u32]
}

pub open spec fn laid_out(layout: Seq<(u8, u8)>) -> Seq<WPos> {
    Seq::new(layout.len(), |i: int| tile_in(base_room(), layout[i].0 as int, layout[i].1 as int))
}

/// How the ground in front of a base lies.
#[derive(Clone, Copy, Debug, PartialEq, Eq, Structural)]
pub enum Layout {
    Open,
    /// A choke in front of the rampart.
    Corridor,
}

/// The defender's creeps.
#[derive(Clone, Copy, Debug, PartialEq, Eq, Structural)]
pub enum ForceSpec {
    NoForce,
    /// So many guards.
    Guard(u32),
}

/// A source of scenarios, each reproducible from its index.
pub trait Generator {
    /// Its name.
    spec fn name(&self) -> Seq<char>;

    /// How many scenarios it offers.
    spec fn offered(&self) -> u32;

    /// Holds of the scenario at an index.
    spec fn yields(&self, index: u32, s: Scenario) -> bool;

    fn label(&self) -> (r: String)
        ensures
            r@ == self.name(),
    ;

    fn count(&self) -> (r: u32)
        ensures
            r == self.offered(),
    ;

    fn generate(&self, index: u32) -> (r: Scenario)
        ensures
            self.yields(index, r),
            r.wf(),
    ;
}

/// What is drawn for a base.
#[verifier::ext_equal]
pub struct BaseDrawView {
    pub member_energy: u32,
    pub onsite_budget: u32,
    pub core_hits: u32,
    pub rampart_hits: u32,
    pub safe_mode: bool,
    pub tower_energy: Seq<u32>,
}

/// What is drawn for a base.
#[derive(Debug)]
pub struct BaseDraw {
    pub member_energy: u32,
    pub onsite_budget: u32,
    pub core_hits: u32,
    /// 0 for a base without a gate.
    pub rampart_hits: u32,
    pub safe_mode: bool,
    /// Energy of each tower, in layout order.
    pub tower_energy: Vec<u32>,
}

impl View for BaseDraw {
    type V = BaseDrawView;

    open spec fn view(&self) -> BaseDrawView {
        BaseDrawView {
            member_energy: self.member_energy,
            onsite_budget: self.onsite_budget,
            core_hits: self.core_hits,
            rampart_hits: self.rampart_hits,
            safe_mode: self.safe_mode,
            tower_energy: self.tower_energy@,
        }
    }
}

/// The energy drawn for a tower: a quarter of them are all but empty.
pub open spec fn drawn_energy(s: u64) -> u32 {
    if drawn_chance(s, 25) {
        drawn_in(next_state(s), 0, 9)
    } else {
        drawn_in(next_state(s), 100, 100_000)
    }
}

/// The energies drawn for `n` towers, two draws each.
pub open spec fn drawn_energies(s: u64, n: nat) -> (Seq<u32>, u64)
    decreases n,
{
    if n == 0 {
        (seq![], s)
    } else {
        let (before, at) = drawn_energies(s, (n - 1) as nat);
        (before.push(drawn_energy(at)), next_state(next_state(at)))
    }
}

/// The draws for an index, in their order.
pub open spec fn base_draw(index: u32) -> BaseDrawView {
    let s0 = seed_state(index);
    let s1 = next_state(s0);
    let s2 = next_state(s1);
    let s3 = next_state(s2);
    let s4 = next_state(s3);
    let gated = drawn_chance(s3, 70);
    let s5 = if gated {
        next_state(s4)
    } else {
        s4
    };
    let s6 = next_state(s5);
    BaseDrawView {
        member_energy: energy_choices()[drawn_below(s0, 6)],
        onsite_budget: drawn_in(s1, 600, 1400),
        core_hits: drawn_in(s2, 20_000, 100_000),
        rampart_hits: if gated {
            drawn_in(s4, 1, 80_000)
        } else {
            0
        },
        safe_mode: drawn_chance(s6, 5),
        tower_energy: drawn_energies(next_state(s6), drawn_in(s5, 0, 6) as nat).0,
    }
}

/// A base's structures: the core, and the rampart if it has one.
pub open spec fn base_structures(d: BaseDrawView) -> Seq<SimStructure> {
    let core = SimStructure {
        id: STRUCTURE_ID_BASE,
        kind: StructureKind::Spawn,
        owner: Some(DEFENDER),
        pos: tile_in(base_room(), 25, 25),
        hits: d.core_hits,
        hits_max: d.core_hits,
    };
    let gate = SimStructure {
        id: (STRUCTURE_ID_BASE + 1 + d.tower_energy.len()) as u32,
        kind: StructureKind::Rampart,
        owner: Some(DEFENDER),
        pos: tile_in(base_room(), 24, 25),
        hits: d.rampart_hits,
        hits_max: d.rampart_hits,
    };
    if d.rampart_hits > 0 {
        seq![core, gate]
    } else {
        seq![core]
    }
}

pub open spec fn base_tower(d: BaseDrawView, i: int) -> SimTower {
    SimTower {
        id: (STRUCTURE_ID_BASE + 1 + i) as u32,
        owner: DEFENDER,
        pos: laid_out(tower_layout())[i],
        energy: d.tower_energy[i],
        hits: TOWER_HITS,
    }
}

pub open spec fn base_towers(d: BaseDrawView) -> Seq<SimTower> {
    Seq::new(d.tower_energy.len(), |i: int| base_tower(d, i))
}

/// The objective of a base is its core.
pub open spec fn is_base_objective(o: Objective) -> bool {
    &&& o.id == STRUCTURE_ID_BASE
    &&& o.room == base_room()
    &&& o.pos == tile_in(base_room(), 25, 25)
    &&& o.assault_pos == tile_in(base_room(), 24, 24)
    &&& o.front_tiles@ == laid_out(front_layout())
    &&& o.support_tiles@ == laid_out(support_layout())
    &&& o.entry == tile_in(base_room(), 2, 25)
    &&& o.kind == ObjectiveKind::Raze
}

/// The scenario at an index.
pub open spec fn is_base_scenario(index: u32, s: Scenario) -> bool {
    let d = base_draw(index);
    &&& s.world.creeps@.len() == 0
    &&& s.world.structures@ == base_structures(d)
    &&& s.world.towers@ == base_towers(d)
    &&& s.world.controllers@.len() == 0
    &&& s.world.safe_mode_owner == if d.safe_mode {
        Some(DEFENDER)
    } else {
        None
    }
    &&& s.objectives@.len() == 1
    &&& is_base_objective(s.objectives@[0])
    &&& s.attacker_owner == ATTACKER
    &&& s.defender_owner == DEFENDER
    &&& s.member_energy == d.member_energy
    &&& s.onsite_budget == d.onsite_budget
    &&& s.label@ == "random-defended-base#"@ + decimal(index as nat)
    &&& s.seed == index
}

/// Seeded single-room bases: a core, most often behind a gate, and up to six
/// towers.
#[derive(Clone, Copy, Debug)]
pub struct RandomDefendedBase {
    pub n: u32,
}

proof fn lemma_energies_len(s: u64, n: nat)
    ensures
        drawn_energies(s, n).0.len() == n,
    decreases n,
{
    if n > 0 {
        lemma_energies_len(s, (n - 1) as nat);
    }
}

/// Every base has between none and six towers, a core that stands, and a budget in
/// its bounds.
pub proof fn base_draw_is_in_bounds(index: u32)
    ensures
        base_draw(index).tower_energy.len() <= 6,
        20_000 <= base_draw(index).core_hits <= 100_000,
        600 <= base_draw(index).onsite_budget <= 1400,
        base_draw(index).rampart_hits <= 80_000,
        energy_choices().contains(base_draw(index).member_energy),
{
    let s0 = seed_state(index);
    let s1 = next_state(s0);
    let s2 = next_state(s1);
    let s3 = next_state(s2);
    let s4 = next_state(s3);
    let s5 = if drawn_chance(s3, 70) {
        next_state(s4)
    } else {
        s4
    };
    draw_is_in_bounds(s1, 600, 1400);
    draw_is_in_bounds(s2, 20_000, 100_000);
    draw_is_in_bounds(s4, 1, 80_000);
    draw_is_in_bounds(s5, 0, 6);
    lemma_energies_len(next_state(next_state(s5)), drawn_in(s5, 0, 6) as nat);
    let k = drawn_below(s0, 6);
    assert(energy_choices()[k] == base_draw(index).member_energy);
}

fn draw_energy(rng: &mut Rng) -> (r: u32)
    ensures
        r == drawn_energy(old(rng)@),
        final(rng)@ == next_state(next_state(old(rng)@)),
{
    if rng.chance(25) {
        rng.range(0, 9)
    } else {
        rng.range(100, 100_000)
    }
}

/// The draws for an index.
pub fn draw_base(index: u32) -> (r: BaseDraw)
    ensures
        r@ == base_draw(index),
        r.tower_energy@.len() <= 6,
{
    proof {
        base_draw_is_in_bounds(index);
    }
    let mut rng = Rng::seeded(index);
    let choices: [u32; 6] = [1300, 1800, 2300, 3300, 5600, 12_900];
    assert(choices@ =~= energy_choices());
    let member_energy: u32 = rng.pick(choices.as_slice());
    let onsite_budget: u32 = rng.range(600, 1400);
    let core_hits: u32 = rng.range(20_000, 100_000);
    let rampart_hits: u32 = if rng.chance(70) {
        rng.range(1, 80_000)
    } else {
        0
    };
    let n_towers: u32 = rng.range(0, 6);
    let safe_mode: bool = rng.chance(5);
    let mut tower_energy: Vec<u32> = Vec::new();
    let ghost s = rng@;
    let mut i: u32 = 0;
    while i < n_towers
        invariant
            i <= n_towers,
            (tower_energy@, rng@) == drawn_energies(s, i as nat),
        decreases n_towers - i,
    {
        tower_energy.push(draw_energy(&mut rng));
        i = i + 1;
    }
    let r = BaseDraw {
        member_energy,
        onsite_budget,
        core_hits,
        rampart_hits,
        safe_mode,
        tower_energy,
    };
    assert(r@ =~= base_draw(index));
    r
}

fn lay_out(layout: &Vec<(u8, u8)>) -> (r: Vec<WPos>)
    requires
        forall|i: int| 0 <= i < layout@.len() ==> (#[trigger] layout@[i]).0 < 50 && layout@[i].1
            < 50,
    ensures
        r@ == laid_out(layout@),
        forall|i: int| 0 <= i < r@.len() ==> (#[trigger] r@[i]).in_world(),
{
    let mut out: Vec<WPos> = Vec::new();
    let mut i: usize = 0;
    while i < layout.len()
        invariant
            i <= layout@.len(),
            forall|k: int|
                0 <= k < layout@.len() ==> (#[trigger] layout@[k]).0 < 50 && layout@[k].1 < 50,
            out@ == laid_out(layout@).take(i as int),
            forall|k: int| 0 <= k < out@.len() ==> (#[trigger] out@[k]).in_world(),
        decreases layout.len() - i,
    {
        out.push(pos_in((-2, -2), layout[i].0, layout[i].1));
        i = i + 1;
        assert(out@ =~= laid_out(layout@).take(i as int));
    }
    assert(out@ =~= laid_out(layout@));
    out
}

fn base_world(d: &BaseDraw) -> (w: CombatWorld)
    requires
        d.tower_energy@.len() <= 6,
    ensures
        w.creeps@.len() == 0,
        w.structures@ == base_structures(d@),
        w.towers@ == base_towers(d@),
        w.controllers@.len() == 0,
        w.safe_mode_owner == if d.safe_mode {
            Some(DEFENDER)
        } else {
            None
        },
        w.wf(),
{
    let mut structures: Vec<SimStructure> = Vec::new();
    structures.push(
        SimStructure {
            id: STRUCTURE_ID_BASE,
            kind: StructureKind::Spawn,
            owner: Some(DEFENDER),
            pos: pos_in((-2, -2), 25, 25),
            hits: d.core_hits,
            hits_max: d.core_hits,
        },
    );
    if d.rampart_hits > 0 {
        structures.push(
            SimStructure {
                id: STRUCTURE_ID_BASE + 1 + d.tower_energy.len() as u32,
                kind: StructureKind::Rampart,
                owner: Some(DEFENDER),
                pos: pos_in((-2, -2), 24, 25),
                hits: d.rampart_hits,
                hits_max: d.rampart_hits,
            },
        );
    }
    assert(structures@ =~= base_structures(d@));
    let layout: Vec<(u8, u8)> = vec![(24, 8), (24, 12), (24, 16), (20, 24), (28, 24), (24, 32)];
    assert(layout@ =~= tower_layout());
    let tiles: Vec<WPos> = lay_out(&layout);
    let mut towers: Vec<SimTower> = Vec::new();
    let mut i: usize = 0;
    while i < d.tower_energy.len()
        invariant
            i <= d.tower_energy@.len() <= 6,
            tiles@ == laid_out(tower_layout()),
            tiles@.len() == 6,
            forall|k: int| 0 <= k < tiles@.len() ==> (#[trigger] tiles@[k]).in_world(),
            towers@ == base_towers(d@).take(i as int),
            forall|k: int| 0 <= k < towers@.len() ==> (#[trigger] towers@[k]).pos.in_world(),
        decreases d.tower_energy.len() - i,
    {
        towers.push(
            SimTower {
                id: STRUCTURE_ID_BASE + 1 + i as u32,
                owner: DEFENDER,
                pos: tiles[i],
                energy: d.tower_energy[i],
                hits: TOWER_HITS,
            },
        );
        i = i + 1;
        assert(towers@ =~= base_towers(d@).take(i as int));
    }
    assert(towers@ =~= base_towers(d@));
    let safe_mode_owner: Option<PlayerId> = if d.safe_mode {
        Some(DEFENDER)
    } else {
        None
    };
    CombatWorld {
        creeps: Vec::new(),
        structures,
        towers,
        controllers: Vec::new(),
        safe_mode_owner,
    }
}

fn base_objective() -> (o: Objective)
    ensures
        is_base_objective(o),
        o.wf(),
{
    let front: Vec<(u8, u8)> = vec![(24, 24), (25, 24), (24, 26), (25, 26)];
    assert(front@ =~= front_layout());
    let support: Vec<(u8, u8)> = vec![(23, 23), (24, 23), (25, 23), (23, 24), (23, 25)];
    assert(support@ =~= support_layout());
    Objective {
        id: STRUCTURE_ID_BASE,
        room: (-2, -2),
        pos: pos_in((-2, -2), 25, 25),
        assault_pos: pos_in((-2, -2), 24, 24),
        front_tiles: lay_out(&front),
        support_tiles: lay_out(&support),
        entry: pos_in((-2, -2), 2, 25),
        kind: ObjectiveKind::Raze,
    }
}

impl Generator for RandomDefendedBase {
    open spec fn name(&self) -> Seq<char> {
        "random-defended-base"@
    }

    open spec fn offered(&self) -> u32 {
        self.n
    }

    open spec fn yields(&self, index: u32, s: Scenario) -> bool {
        is_base_scenario(index, s)
    }

    fn label(&self) -> (r: String) {
        String::from_str("random-defended-base")
    }

    fn count(&self) -> (r: u32) {
        self.n
    }

    fn generate(&self, index: u32) -> (r: Scenario) {
        let d: BaseDraw = draw_base(index);
        let world: CombatWorld = base_world(&d);
        let mut objectives: Vec<Objective> = Vec::new();
        objectives.push(base_objective());
        let mut label: String = String::from_str("random-defended-base#");
        push_decimal(&mut label, index as u64);
        Scenario {
            world,
            objectives,
            attacker_owner: ATTACKER,
            defender_owner: DEFENDER,
            member_energy: d.member_energy,
            onsite_budget: d.onsite_budget,
            label,
            seed: index as u64,
        }
    }
}

// ── What a base is made of ─────────────────────────────────────────────────

/// A tower is either all but empty, below the ten that a shot takes, or well filled.
pub proof fn towers_are_all_but_empty_or_filled(s: u64)
    ensures
        drawn_chance(s, 25) ==> drawn_energy(s) <= 9,
        !drawn_chance(s, 25) ==> 100 <= drawn_energy(s) <= 100_000,
        drawn_chance(s, 25) ==> drawn_energy(s) as int == crate::rng::drawn(next_state(s)) as int
            % 10,
        !drawn_chance(s, 25) ==> drawn_energy(s) as int == 100 + crate::rng::drawn(
            next_state(s),
        ) as int % 99_901,
{
    draw_is_in_bounds(next_state(s), 0, 9);
    draw_is_in_bounds(next_state(s), 100, 100_000);
}

/// Each tower's energy takes two draws, after those of the towers before it.
pub proof fn towers_are_drawn_in_turn(s: u64, n: nat)
    ensures
        drawn_energies(s, 0).0.len() == 0,
        drawn_energies(s, n).0.len() == n,
        drawn_energies(s, n + 1).0 == drawn_energies(s, n).0.push(
            drawn_energy(drawn_energies(s, n).1),
        ),
        drawn_energies(s, n + 1).1 == next_state(next_state(drawn_energies(s, n).1)),
        drawn_energies(s, 0).1 == s,
{
    lemma_energies_len(s, n);
}

/// A base is drawn in this order: the members' energy, the budget, the core, whether there is
/// a rampart and how strong, how many towers, safe mode, and the towers.
pub proof fn a_base_is_drawn_in_order(index: u32, s: Seq<u64>)
    requires
        s.len() == 8,
        s[0] == seed_state(index),
        forall|i: int| 0 < i < 8 ==> #[trigger] s[i] == next_state(s[i - 1]),
    ensures
        ({
            let d = base_draw(index);
            let gated = drawn_chance(s[3], 70);
            &&& d.member_energy == energy_choices()[drawn_below(s[0], 6)]
            &&& d.onsite_budget == drawn_in(s[1], 600, 1400)
            &&& d.core_hits == drawn_in(s[2], 20_000, 100_000)
            &&& gated ==> d.rampart_hits == drawn_in(s[4], 1, 80_000) && d.rampart_hits >= 1
            &&& !gated ==> d.rampart_hits == 0
            &&& gated ==> d.tower_energy.len() == drawn_in(s[5], 0, 6) && (d.safe_mode
                <==> drawn_chance(s[6], 5)) && d.tower_energy == drawn_energies(
                s[7],
                d.tower_energy.len(),
            ).0
            &&& !gated ==> d.tower_energy.len() == drawn_in(s[4], 0, 6) && (d.safe_mode
                <==> drawn_chance(s[5], 5)) && d.tower_energy == drawn_energies(
                s[6],
                d.tower_energy.len(),
            ).0
        }),
{
    assert(s[1] == next_state(s[0]));
    assert(s[2] == next_state(s[1]));
    assert(s[3] == next_state(s[2]));
    assert(s[4] == next_state(s[3]));
    assert(s[5] == next_state(s[4]));
    assert(s[6] == next_state(s[5]));
    assert(s[7] == next_state(s[6]));
    draw_is_in_bounds(s[4], 1, 80_000);
    draw_is_in_bounds(s[5], 0, 6);
    draw_is_in_bounds(s[4], 0, 6);
    lemma_energies_len(s[7], drawn_in(s[5], 0, 6) as nat);
    lemma_energies_len(s[6], drawn_in(s[4], 0, 6) as nat);
}

/// Members are offered in six sizes, each larger than the one before.
pub proof fn member_sizes_grow(i: int, j: int)
    ensures
        energy_choices().len() == 6,
        0 <= i < j < 6 ==> energy_choices()[i] < energy_choices()[j],
        energy_choices()[0] == 1300 && energy_choices()[5] == 12_900,
        energy_choices()[1] - energy_choices()[0] == 500,
        energy_choices()[2] - energy_choices()[1] == 500,
        energy_choices()[3] - energy_choices()[2] == 1000,
        energy_choices()[4] - energy_choices()[3] == 2300,
{
}

/// The core and its rampart are whole, the defender's and next to each other; the rampart is
/// there exactly where it has hits, and its id follows the towers'.
pub proof fn a_base_has_its_structures(d: BaseDrawView)
    requires
        d.tower_energy.len() <= 6,
    ensures
        ({
            let s = base_structures(d);
            &&& s.len() == if d.rampart_hits > 0 {
                2nat
            } else {
                1nat
            }
            &&& s[0].id == 1_000_000 && s[0].kind is Spawn && s[0].owner == Some(1u32)
            &&& s[0].hits == d.core_hits && s[0].hits_max == d.core_hits
            &&& s[0].pos == tile_in(base_room(), 25, 25)
            &&& d.rampart_hits > 0 ==> {
                &&& s[1].id == 1_000_001 + d.tower_energy.len()
                &&& s[1].kind is Rampart && s[1].owner == Some(1u32)
                &&& s[1].hits == d.rampart_hits && s[1].hits_max == d.rampart_hits
                &&& s[1].pos.wx == s[0].pos.wx - 1 && s[1].pos.wy == s[0].pos.wy
            }
        }),
{
}

/// The towers are the defender's, whole, with the energy drawn for them and ids in a row
/// behind the core's; the first six places lie from the core as far as the layout says.
pub proof fn a_base_has_its_towers(d: BaseDrawView, i: int)
    requires
        0 <= i < d.tower_energy.len() <= 6,
    ensures
        ({
            let t = base_towers(d)[i];
            let core = tile_in(base_room(), 25, 25);
            &&& base_towers(d).len() == d.tower_energy.len()
            &&& t.id == 1_000_001 + i && t.owner == 1 && t.hits == 3000
            &&& t.energy == d.tower_energy[i]
            &&& i == 0 ==> t.pos.tiles_to(core) == 17 && t.pos.wx - core.wx == -1
            &&& i == 1 ==> t.pos.tiles_to(core) == 13 && t.pos.wx - core.wx == -1
            &&& i == 2 ==> t.pos.tiles_to(core) == 9 && t.pos.wx - core.wx == -1
            &&& i < 3 ==> t.pos.wy < core.wy
            &&& i == 3 ==> t.pos.wx - core.wx == -5 && t.pos.wy - core.wy == -1
            &&& i == 4 ==> t.pos.wx - core.wx == 3 && t.pos.wy - core.wy == -1
            &&& i == 5 ==> t.pos.wx - core.wx == -1 && t.pos.wy - core.wy == 7
        }),
{
}

/// A base is assaulted from the north-west: dismantlers next to the core and to the rampart,
/// healers next to the first of them, the squad coming from the western border.
pub proof fn a_base_is_assaulted_from_the_west(o: Objective, i: int)
    requires
        is_base_objective(o),
    ensures
        o.id == 1_000_000 && o.kind is Raze,
        o.pos == tile_in(base_room(), 25, 25),
        o.room == base_room(),
        o.assault_pos.wx == o.pos.wx - 1 && o.assault_pos.wy == o.pos.wy - 1,
        o.front_tiles@.len() == 4 && o.support_tiles@.len() == 5,
        o.front_tiles@[0] == o.assault_pos,
        0 <= i < 4 ==> o.front_tiles@[i].tiles_to(o.pos) == 1 && o.front_tiles@[i].tiles_to(
            tile_in(base_room(), 24, 25),
        ) == 1,
        0 <= i < 5 ==> o.support_tiles@[i].tiles_to(o.assault_pos) == 1
            && o.support_tiles@[i].tiles_to(o.pos) == 2,
        o.pos.wx - o.entry.wx == 23 && o.entry.wy == o.pos.wy,
        base_room().0 == -2 && base_room().1 == -2,
{
}

/// One index is one base: two scenarios of it have the same structures, towers and terms.
pub proof fn one_index_is_one_base(index: u32, a: Scenario, b: Scenario)
    requires
        is_base_scenario(index, a),
        is_base_scenario(index, b),
    ensures
        a.world.structures@ == b.world.structures@,
        a.world.towers@ == b.world.towers@,
        a.world.safe_mode_owner == b.world.safe_mode_owner,
        a.member_energy == b.member_energy && a.onsite_budget == b.onsite_budget,
        a.label@ == b.label@,
        a.attacker_owner == 0 && a.defender_owner == 1,
        a.world.safe_mode_owner is Some ==> a.world.safe_mode_owner->0 == a.defender_owner,
        base_draw(index).safe_mode <==> a.world.safe_mode_owner is Some,
        a.world.creeps@.len() == 0,
        a.member_energy == base_draw(index).member_energy,
        a.onsite_budget == base_draw(index).onsite_budget,
{
}

} // verus!
