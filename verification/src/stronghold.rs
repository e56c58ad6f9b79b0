//! Invader strongholds: the layouts of the five levels, and the creeps that defend
//! them.

use crate::generate::{ATTACKER, DEFENDER, STRUCTURE_ID_BASE, TOWER_HITS};
use crate::position::WPos;
use crate::profile::total;
use crate::rng::{draw_is_in_bounds, drawn_in, next_state, seed_state, Rng};
use crate::roster::Part;
use crate::scenario::{Objective, ObjectiveKind, Scenario};
use crate::staging::as_offsets;
use crate::text::{decimal, push_decimal};
use crate::world::{
    pos_in, tile_in, CombatWorld, SimStructure, SimTower, StructureKind,
};
use vstd::prelude::*;
use vstd::relations::{antisymmetric, reflexive, sorted_by, strongly_connected, total_ordering, transitive};
use vstd::seq_lib::lemma_sorted_unique;
use vstd::string::*;

verus! {

/// Hits of a stronghold's core.
pub const CORE_HITS: u32 = 100_000;

/// Energy of a stronghold's tower, which is as good as endless.
pub const TOWER_ENERGY: u32 = 100_000;

/// Ids of defending creeps start here.
pub const DEFENDER_ID_BASE: u32 = 10_000;

/// How strongly a part is boosted.
#[derive(Clone, Copy, Debug, PartialEq, Eq, Structural)]
pub enum BoostTier {
    T0,
    T2,
    T3,
}

/// A run of equal parts.
#[derive(Clone, Copy, Debug, PartialEq, Eq, Structural)]
pub struct PartRun {
    pub part: Part,
    pub count: u32,
    pub boost: BoostTier,
}

/// The bodies that defend strongholds and borders.
#[derive(Clone, Copy, Debug, PartialEq, Eq, Structural)]
pub enum BodyKind {
    WeakDefender,
    FullDefender,
    BoostedDefender,
    BoostedRanger,
    FullBoostedMelee,
    FullBoostedRanger,
    Fortifier,
    RangedCamper,
}

/// The ground that a stronghold stands on.
#[derive(Clone, Copy, Debug, PartialEq, Eq, Structural)]
pub enum StrongholdTerrain {
    Open,
    Chokepoint,
}

/// A defender as it is put down.
#[derive(Clone, Copy, Debug, PartialEq, Eq, Structural)]
pub struct DefenderSpot {
    pub id: u32,
    pub pos: WPos,
    pub body: BodyKind,
}

/// Hits of a rampart by level.
pub open spec fn rampart_hits_of(level: u8) -> u32 {
    if level == 1 {
        100_000
    } else if level == 2 {
        200_000
    } else if level == 3 {
        500_000
    } else if level == 4 {
        1_000_000
    } else {
        2_000_000
    }
}

/// Hits of a rampart by level.
pub fn rampart_hits(level: u8) -> (r: u32)
    requires
        1 <= level <= 5,
    ensures
        r == rampart_hits_of(level),
{
    if level == 1 {
        100_000
    } else if level == 2 {
        200_000
    } else if level == 3 {
        500_000
    } else if level == 4 {
        1_000_000
    } else {
        2_000_000
    }
}

/// The towers of a level, relative to the core.
pub open spec fn tower_offsets(level: u8) -> Seq<(int, int)> {
    if level == 1 {
        seq![(1int, 1int)]
    } else if level == 2 {
        seq![(1int, 1int), (-1int, -1int)]
    } else if level == 3 {
        seq![(1int, 1int), (-1int, -1int), (-1int, 1int)]
    } else if level == 4 {
        seq![(1int, 1int), (-1int, -1int), (-1int, 1int), (1int, -1int)]
    } else {
        seq![
            (1int, 1int),
            (-1int, -1int),
            (-1int, 1int),
            (1int, -1int),
            (0int, -2int),
            (0int, 2int),
        ]
    }
}

/// The ramparts of a level, relative to the core: one on every tile of its layout.
pub open spec fn blanket(level: u8) -> Seq<(int, int)> {
    if level == 1 {
        seq![(0int, 0int), (1int, 1int), (0int, 1int), (1int, 0int)]
    } else if level == 2 {
        seq![
            (0int, 0int), (1int, 1int), (-1int, -1int), (0int, -1int), (1int, -1int),
            (-1int, 1int), (0int, 1int), (1int, 0int), (-1int, 0int),
        ]
    } else if level == 3 {
        seq![
            (0int, 0int), (1int, 1int), (-1int, -1int), (-1int, 1int), (-2int, -1int),
            (0int, -1int), (-1int, 0int), (1int, 0int), (-2int, 1int), (0int, 1int),
            (-2int, 2int), (-1int, 2int), (1int, 2int), (1int, -1int), (-2int, 0int),
            (0int, 2int),
        ]
    } else if level == 4 {
        seq![
            (0int, 0int), (1int, 1int), (-1int, -1int), (-1int, 1int), (1int, -1int),
            (-2int, -2int), (-1int, -2int), (1int, -2int), (2int, -2int), (-2int, -1int),
            (0int, -1int), (2int, -1int), (-1int, 0int), (1int, 0int), (-2int, 1int),
            (0int, 1int), (2int, 1int), (-2int, 2int), (-1int, 2int), (1int, 2int),
            (2int, 2int), (2int, 0int), (-2int, 0int), (0int, 2int), (0int, -2int),
        ]
    } else {
        seq![
            (0int, 0int), (1int, 1int), (-1int, -1int), (-1int, 1int), (1int, -1int),
            (0int, -2int), (0int, 2int), (-2int, -3int), (-1int, -3int), (0int, -3int),
            (1int, -3int), (2int, -3int), (-3int, -2int), (-1int, -2int), (1int, -2int),
            (3int, -2int), (-3int, -1int), (-2int, -1int), (0int, -1int), (2int, -1int),
            (3int, -1int), (-3int, 0int), (-2int, 0int), (-1int, 0int), (1int, 0int),
            (2int, 0int), (3int, 0int), (-3int, 1int), (-2int, 1int), (0int, 1int),
            (2int, 1int), (3int, 1int), (-3int, 2int), (-1int, 2int), (1int, 2int),
            (3int, 2int), (-2int, 3int), (-1int, 3int), (0int, 3int), (1int, 3int),
            (2int, 3int), (2int, 2int), (-2int, -2int), (2int, -2int), (-2int, 2int),
        ]
    }
}

pub open spec fn close_by(v: Seq<(i32, i32)>) -> bool {
    forall|i: int| 0 <= i < v.len() ==> -3 <= (#[trigger] v[i]).0 <= 3 && -3 <= v[i].1 <= 3
}

fn list_towers(level: u8) -> (r: Vec<(i32, i32)>)
    requires
        1 <= level <= 5,
    ensures
        as_offsets(r@) == tower_offsets(level),
        close_by(r@),
        r@.len() <= 6,
{
    let r: Vec<(i32, i32)> = if level == 1 {
        vec![(1, 1)]
    } else if level == 2 {
        vec![(1, 1), (-1, -1)]
    } else if level == 3 {
        vec![(1, 1), (-1, -1), (-1, 1)]
    } else if level == 4 {
        vec![(1, 1), (-1, -1), (-1, 1), (1, -1)]
    } else {
        vec![(1, 1), (-1, -1), (-1, 1), (1, -1), (0, -2), (0, 2)]
    };
    assert(as_offsets(r@) =~= tower_offsets(level));
    r
}

fn list_small_blanket(level: u8) -> (r: Vec<(i32, i32)>)
    requires
        1 <= level <= 3,
    ensures
        as_offsets(r@) == blanket(level),
        close_by(r@),
        0 < r@.len() <= 16,
{
    let r: Vec<(i32, i32)> = if level == 1 {
        vec![(0, 0), (1, 1), (0, 1), (1, 0)]
    } else if level == 2 {
        vec![(0, 0), (1, 1), (-1, -1), (0, -1), (1, -1), (-1, 1), (0, 1), (1, 0), (-1, 0)]
    } else {
        vec![
            (0, 0), (1, 1), (-1, -1), (-1, 1), (-2, -1), (0, -1), (-1, 0), (1, 0), (-2, 1),
            (0, 1), (-2, 2), (-1, 2), (1, 2), (1, -1), (-2, 0), (0, 2),
        ]
    };
    assert(as_offsets(r@) =~= blanket(level));
    r
}

fn list_large_blanket(level: u8) -> (r: Vec<(i32, i32)>)
    requires
        4 <= level <= 5,
    ensures
        as_offsets(r@) == blanket(level),
        close_by(r@),
        0 < r@.len() <= 45,
{
    let r: Vec<(i32, i32)> = if level == 4 {
        vec![
            (0, 0), (1, 1), (-1, -1), (-1, 1), (1, -1), (-2, -2), (-1, -2), (1, -2), (2, -2),
            (-2, -1), (0, -1), (2, -1), (-1, 0), (1, 0), (-2, 1), (0, 1), (2, 1), (-2, 2),
            (-1, 2), (1, 2), (2, 2), (2, 0), (-2, 0), (0, 2), (0, -2),
        ]
    } else {
        vec![
            (0, 0), (1, 1), (-1, -1), (-1, 1), (1, -1), (0, -2), (0, 2), (-2, -3), (-1, -3),
            (0, -3), (1, -3), (2, -3), (-3, -2), (-1, -2), (1, -2), (3, -2), (-3, -1), (-2, -1),
            (0, -1), (2, -1), (3, -1), (-3, 0), (-2, 0), (-1, 0), (1, 0), (2, 0), (3, 0),
            (-3, 1), (-2, 1), (0, 1), (2, 1), (3, 1), (-3, 2), (-1, 2), (1, 2), (3, 2),
            (-2, 3), (-1, 3), (0, 3), (1, 3), (2, 3), (2, 2), (-2, -2), (2, -2), (-2, 2),
        ]
    };
    assert(as_offsets(r@) =~= blanket(level));
    r
}

fn list_blanket(level: u8) -> (r: Vec<(i32, i32)>)
    requires
        1 <= level <= 5,
    ensures
        as_offsets(r@) == blanket(level),
        close_by(r@),
        0 < r@.len() <= 45,
{
    if level <= 3 {
        list_small_blanket(level)
    } else {
        list_large_blanket(level)
    }
}

/// The parts of a body.
pub open spec fn parts_of(k: BodyKind) -> Seq<PartRun> {
    match k {
        BodyKind::WeakDefender => seq![
            PartRun { part: Part::Attack, count: 15, boost: BoostTier::T0 },
            PartRun { part: Part::Move, count: 15, boost: BoostTier::T0 },
        ],
        BodyKind::FullDefender => seq![
            PartRun { part: Part::Attack, count: 25, boost: BoostTier::T0 },
            PartRun { part: Part::Move, count: 25, boost: BoostTier::T0 },
        ],
        BodyKind::BoostedDefender => seq![
            PartRun { part: Part::Attack, count: 25, boost: BoostTier::T2 },
            PartRun { part: Part::Move, count: 25, boost: BoostTier::T0 },
        ],
        BodyKind::BoostedRanger => seq![
            PartRun { part: Part::RangedAttack, count: 25, boost: BoostTier::T2 },
            PartRun { part: Part::Move, count: 25, boost: BoostTier::T0 },
        ],
        BodyKind::FullBoostedMelee => seq![
            PartRun { part: Part::Attack, count: 44, boost: BoostTier::T3 },
            PartRun { part: Part::Move, count: 6, boost: BoostTier::T3 },
        ],
        BodyKind::FullBoostedRanger => seq![
            PartRun { part: Part::RangedAttack, count: 44, boost: BoostTier::T3 },
            PartRun { part: Part::Move, count: 6, boost: BoostTier::T3 },
        ],
        BodyKind::Fortifier => seq![
            PartRun { part: Part::Work, count: 15, boost: BoostTier::T3 },
            PartRun { part: Part::Carry, count: 15, boost: BoostTier::T0 },
            PartRun { part: Part::Move, count: 15, boost: BoostTier::T0 },
        ],
        BodyKind::RangedCamper => seq![
            PartRun { part: Part::RangedAttack, count: 20, boost: BoostTier::T0 },
            PartRun { part: Part::Move, count: 20, boost: BoostTier::T0 },
        ],
    }
}

fn two_runs(part: Part, count: u32, boost: BoostTier, moves: u32, move_boost: BoostTier) -> (r: Vec<
    PartRun,
>)
    ensures
        r@ == seq![
            PartRun { part, count, boost },
            PartRun { part: Part::Move, count: moves, boost: move_boost },
        ],
{
    let mut v: Vec<PartRun> = Vec::new();
    v.push(PartRun { part, count, boost });
    v.push(PartRun { part: Part::Move, count: moves, boost: move_boost });
    assert(v@ =~= seq![
        PartRun { part, count, boost },
        PartRun { part: Part::Move, count: moves, boost: move_boost },
    ]);
    v
}

/// The parts of a body.
pub fn body_parts(k: BodyKind) -> (r: Vec<PartRun>)
    ensures
        r@ == parts_of(k),
{
    match k {
        BodyKind::WeakDefender => two_runs(Part::Attack, 15, BoostTier::T0, 15, BoostTier::T0),
        BodyKind::FullDefender => two_runs(Part::Attack, 25, BoostTier::T0, 25, BoostTier::T0),
        BodyKind::BoostedDefender => two_runs(Part::Attack, 25, BoostTier::T2, 25, BoostTier::T0),
        BodyKind::BoostedRanger => two_runs(
            Part::RangedAttack,
            25,
            BoostTier::T2,
            25,
            BoostTier::T0,
        ),
        BodyKind::FullBoostedMelee => two_runs(Part::Attack, 44, BoostTier::T3, 6, BoostTier::T3),
        BodyKind::FullBoostedRanger => two_runs(
            Part::RangedAttack,
            44,
            BoostTier::T3,
            6,
            BoostTier::T3,
        ),
        BodyKind::Fortifier => {
            let mut v: Vec<PartRun> = Vec::new();
            v.push(PartRun { part: Part::Work, count: 15, boost: BoostTier::T3 });
            v.push(PartRun { part: Part::Carry, count: 15, boost: BoostTier::T0 });
            v.push(PartRun { part: Part::Move, count: 15, boost: BoostTier::T0 });
            assert(v@ =~= parts_of(k));
            v
        },
        BodyKind::RangedCamper => two_runs(
            Part::RangedAttack,
            20,
            BoostTier::T0,
            20,
            BoostTier::T0,
        ),
    }
}

/// No body is larger than a creep's body can be.
pub proof fn defender_bodies_fit_a_creep(k: BodyKind)
    ensures
        total(Seq::new(parts_of(k).len(), |i: int| parts_of(k)[i].count as int)) <= 50,
{
    let c = Seq::new(parts_of(k).len(), |i: int| parts_of(k)[i].count as int);
    reveal_with_fuel(total, 4);
    if c.len() == 2 {
        assert(c.drop_last().drop_last() =~= Seq::<int>::empty());
        assert(c.drop_last().last() == c[0] && c.last() == c[1]);
    } else {
        assert(c.drop_last().drop_last().drop_last() =~= Seq::<int>::empty());
        assert(c.drop_last().drop_last().last() == c[0] && c.drop_last().last() == c[1]
            && c.last() == c[2]);
    }
}

/// `take` bodies drawn from a deck, each gone from it once drawn; the last of the
/// deck takes its place.
pub open spec fn dealt(deck: Seq<BodyKind>, take: nat, s: u64) -> Seq<BodyKind>
    decreases take,
{
    if take == 0 || deck.len() == 0 {
        seq![]
    } else {
        let i = drawn_in(s, 0, (deck.len() - 1) as u32) as int;
        seq![deck[i]] + dealt(
            deck.update(i, deck.last()).drop_last(),
            (take - 1) as nat,
            next_state(s),
        )
    }
}

pub open spec fn copies(k: BodyKind, n: nat) -> Seq<BodyKind> {
    Seq::new(n, |i: int| k)
}

/// The deck of the fourth level.
pub open spec fn fourth_deck() -> Seq<BodyKind> {
    copies(BodyKind::Fortifier, 1) + copies(BodyKind::BoostedDefender, 4) + copies(
        BodyKind::BoostedRanger,
        3,
    )
}

/// The deck of the fifth level.
pub open spec fn fifth_deck() -> Seq<BodyKind> {
    copies(BodyKind::FullBoostedMelee, 7) + copies(BodyKind::FullBoostedRanger, 9)
}

/// The creeps that defend a level.
pub open spec fn population(level: u8, s: u64) -> Seq<BodyKind> {
    if level == 1 {
        seq![]
    } else if level == 2 {
        seq![BodyKind::WeakDefender]
    } else if level == 3 {
        copies(BodyKind::FullDefender, 2)
    } else if level == 4 {
        dealt(fourth_deck(), 4, s)
    } else {
        seq![BodyKind::Fortifier] + dealt(fifth_deck(), 8, s)
    }
}

proof fn lemma_dealt_len(deck: Seq<BodyKind>, take: nat, s: u64)
    requires
        deck.len() <= 100,
    ensures
        dealt(deck, take, s).len() == if take < deck.len() {
            take
        } else {
            deck.len()
        },
        forall|j: int|
            0 <= j < dealt(deck, take, s).len() ==> deck.contains(#[trigger] dealt(deck, take, s)[j]),
    decreases take,
{
    if take > 0 && deck.len() > 0 {
        let hi = (deck.len() - 1) as u32;
        draw_is_in_bounds(s, 0, hi);
        let i = drawn_in(s, 0, hi) as int;
        let rest = deck.update(i, deck.last()).drop_last();
        lemma_dealt_len(rest, (take - 1) as nat, next_state(s));
        let d = dealt(rest, (take - 1) as nat, next_state(s));
        assert forall|j: int| 0 <= j < dealt(deck, take, s).len() implies deck.contains(
            #[trigger] dealt(deck, take, s)[j],
        ) by {
            if j > 0 {
                assert(dealt(deck, take, s)[j] == d[j - 1]);
                assert(rest.contains(d[j - 1]));
                let k = choose|k: int| 0 <= k < rest.len() && rest[k] == d[j - 1];
                if k == i {
                    assert(deck[deck.len() - 1] == d[j - 1]);
                } else {
                    assert(deck[k] == d[j - 1]);
                }
            } else {
                assert(dealt(deck, take, s)[0] == deck[i]);
            }
        }
    }
}

/// The size of each level's population.
pub proof fn population_sizes(level: u8, s: u64)
    requires
        1 <= level <= 5,
    ensures
        population(level, s).len() == if level == 1 {
            0nat
        } else if level == 2 {
            1
        } else if level == 3 {
            2
        } else if level == 4 {
            4
        } else {
            9
        },
{
    lemma_dealt_len(fourth_deck(), 4, s);
    lemma_dealt_len(fifth_deck(), 8, s);
}

/// Every defender of the fifth level is boosted to the highest tier.
pub proof fn fifth_level_is_fully_boosted(s: u64, j: int)
    requires
        0 <= j < population(5, s).len(),
    ensures
        parts_of(population(5, s)[j])[0].boost == BoostTier::T3,
{
    lemma_dealt_len(fifth_deck(), 8, s);
    if j > 0 {
        let d = dealt(fifth_deck(), 8, s);
        assert(population(5, s)[j] == d[j - 1]);
        assert(fifth_deck().contains(d[j - 1]));
        let k = choose|k: int| 0 <= k < fifth_deck().len() && fifth_deck()[k] == d[j - 1];
    }
}

fn deal(deck0: Vec<BodyKind>, take: usize, rng: &mut Rng) -> (r: Vec<BodyKind>)
    requires
        deck0@.len() <= 100,
    ensures
        r@ == dealt(deck0@, take as nat, old(rng)@),
{
    let mut deck: Vec<BodyKind> = deck0;
    let mut out: Vec<BodyKind> = Vec::new();
    let ghost goal = dealt(deck@, take as nat, rng@);
    let mut n: usize = 0;
    assert(goal =~= out@ + goal);
    while n < take && deck.len() > 0
        invariant
            n <= take,
            deck@.len() <= 100,
            goal == out@ + dealt(deck@, (take - n) as nat, rng@),
        decreases take - n,
    {
        let ghost before = out@;
        let ghost deck1 = deck@;
        let ghost s = rng@;
        let i: usize = rng.range(0, deck.len() as u32 - 1) as usize;
        let b: BodyKind = deck.swap_remove(i);
        out.push(b);
        n = n + 1;
        assert(before + (seq![b] + dealt(deck@, (take - n) as nat, rng@)) =~= out@ + dealt(
            deck@,
            (take - n) as nat,
            rng@,
        ));
    }
    assert(out@ =~= goal);
    out
}

fn push_copies(v: &mut Vec<BodyKind>, k: BodyKind, n: usize)
    ensures
        final(v)@ == old(v)@ + copies(k, n as nat),
{
    let ghost before = v@;
    let mut i: usize = 0;
    assert(v@ =~= before + copies(k, 0));
    while i < n
        invariant
            i <= n,
            v@ == before + copies(k, i as nat),
        decreases n - i,
    {
        v.push(k);
        i = i + 1;
        assert(v@ =~= before + copies(k, i as nat));
    }
}

/// The creeps that defend a level.
pub fn defender_bodies(level: u8, rng: &mut Rng) -> (r: Vec<BodyKind>)
    requires
        1 <= level <= 5,
    ensures
        r@ == population(level, old(rng)@),
        r@.len() <= 9,
{
    proof {
        population_sizes(level, rng@);
    }
    let ghost s = rng@;
    let mut out: Vec<BodyKind> = Vec::new();
    if level == 1 {
    } else if level == 2 {
        out.push(BodyKind::WeakDefender);
    } else if level == 3 {
        push_copies(&mut out, BodyKind::FullDefender, 2);
    } else if level == 4 {
        let mut deck: Vec<BodyKind> = Vec::new();
        push_copies(&mut deck, BodyKind::Fortifier, 1);
        push_copies(&mut deck, BodyKind::BoostedDefender, 4);
        push_copies(&mut deck, BodyKind::BoostedRanger, 3);
        assert(deck@ =~= fourth_deck());
        out = deal(deck, 4, rng);
    } else {
        let mut deck: Vec<BodyKind> = Vec::new();
        push_copies(&mut deck, BodyKind::FullBoostedMelee, 7);
        push_copies(&mut deck, BodyKind::FullBoostedRanger, 9);
        assert(deck@ =~= fifth_deck());
        out = deal(deck, 8, rng);
        out.insert(0, BodyKind::Fortifier);
    }
    assert(out@ =~= population(level, s));
    out
}

/// The room of a stronghold.
pub open spec fn stronghold_room() -> (i32, i32) {
    (-6i32 as i32, -6i32 as i32)
}

/// Its neighbour to the east.
pub open spec fn staging_room() -> (i32, i32) {
    (-5i32 as i32, -6i32 as i32)
}

/// The tile at an offset from a core.
pub open spec fn beside(core: (u8, u8), o: (int, int)) -> (u8, u8) {
    ((core.0 + o.0) as u8, (core.1 + o.1) as u8)
}

pub open spec fn blanket_tiles(level: u8) -> Seq<(u8, u8)> {
    Seq::new(blanket(level).len(), |i: int| beside((25, 25), blanket(level)[i]))
}

/// East before west, and north before south.
pub open spec fn east_first() -> spec_fn((u8, u8), (u8, u8)) -> bool {
    |a: (u8, u8), b: (u8, u8)| a.0 > b.0 || (a.0 == b.0 && a.1 <= b.1)
}

/// The tiles that defenders stand on, in order.
pub open spec fn spots(level: u8) -> Seq<(u8, u8)> {
    blanket_tiles(level).sort_by(east_first())
}

proof fn lemma_east_first_total()
    ensures
        total_ordering(east_first()),
{
    assert(reflexive(east_first()));
    assert(antisymmetric(east_first()));
    assert(transitive(east_first()));
    assert(strongly_connected(east_first()));
}

fn insert_east(v: &mut Vec<(u8, u8)>, t: (u8, u8))
    requires
        sorted_by(old(v)@, east_first()),
    ensures
        sorted_by(final(v)@, east_first()),
        final(v)@.to_multiset() == old(v)@.to_multiset().insert(t),
        final(v)@.len() == old(v)@.len() + 1,
{
    let ghost before = v@;
    let leq = Ghost(east_first());
    let mut i: usize = 0;
    while i < v.len() && (v[i].0 > t.0 || (v[i].0 == t.0 && v[i].1 <= t.1))
        invariant
            i <= v@.len(),
            v@ == before,
            leq@ == east_first(),
            forall|k: int| 0 <= k < i ==> (leq@)(#[trigger] v@[k], t),
        decreases v.len() - i,
    {
        i = i + 1;
    }
    v.insert(i, t);
    proof {
        vstd::seq_lib::to_multiset_insert(before, i as int, t);
        let f = east_first();
        assert forall|a: int, b: int| 0 <= a < b < v@.len() implies #[trigger] f(v@[a], v@[b]) by {
            if a < i && b < i {
                assert(f(before[a], before[b]));
            } else if a < i && b == i {
                assert(f(before[a], t));
            } else if a < i {
                assert(f(before[a], before[b - 1]));
            } else if a == i {
                if b - 1 == i {
                } else {
                    assert(f(before[i as int], before[b - 1]));
                }
            } else {
                assert(f(before[a - 1], before[b - 1]));
            }
        }
    }
}

fn sorted_spots(level: u8) -> (r: Vec<(u8, u8)>)
    requires
        1 <= level <= 5,
    ensures
        r@ == spots(level),
        r@.len() == blanket(level).len(),
        r@.len() > 0,
        forall|i: int| 0 <= i < r@.len() ==> (#[trigger] r@[i]).0 < 50 && r@[i].1 < 50,
{
    let offsets: Vec<(i32, i32)> = list_blanket(level);
    let ghost tiles = blanket_tiles(level);
    let mut out: Vec<(u8, u8)> = Vec::new();
    let mut i: usize = 0;
    assert(tiles.take(0) =~= Seq::<(u8, u8)>::empty());
    while i < offsets.len()
        invariant
            i <= offsets@.len(),
            as_offsets(offsets@) == blanket(level),
            close_by(offsets@),
            tiles == blanket_tiles(level),
            sorted_by(out@, east_first()),
            out@.to_multiset() == tiles.take(i as int).to_multiset(),
            out@.len() == i,
            forall|k: int| 0 <= k < out@.len() ==> 22 <= (#[trigger] out@[k]).0 <= 28,
        decreases offsets.len() - i,
    {
        let o: (i32, i32) = offsets[i];
        assert(-3 <= offsets@[i as int].0 <= 3);
        let t: (u8, u8) = ((25 + o.0) as u8, (25 + o.1) as u8);
        assert(blanket(level)[i as int] == (o.0 as int, o.1 as int));
        assert(tiles[i as int] == t);
        let ghost before = out@;
        insert_east(&mut out, t);
        i = i + 1;
        proof {
            assert(tiles.take(i as int) =~= tiles.take(i - 1).push(t));
            vstd::seq_lib::to_multiset_build(tiles.take(i - 1), t);
            lemma_same_members(out@, tiles.take(i as int));
            assert forall|k: int| 0 <= k < out@.len() implies 22 <= (#[trigger] out@[k]).0
                <= 28 by {
                assert(out@.contains(out@[k]));
                let j = choose|j: int|
                    0 <= j < tiles.take(i as int).len() && tiles.take(i as int)[j] == out@[k];
                assert(offsets@[j].0 >= -3);
                assert(blanket(level)[j] == (offsets@[j].0 as int, offsets@[j].1 as int));
            }
        }
    }
    proof {
        assert(tiles.take(i as int) =~= tiles);
        lemma_east_first_total();
        tiles.lemma_sort_by_ensures(east_first());
        lemma_sorted_unique(out@, tiles.sort_by(east_first()), east_first());
        lemma_same_members(out@, tiles);
        assert forall|k: int| 0 <= k < out@.len() implies (#[trigger] out@[k]).0 < 50 && out@[k].1
            < 50 by {
            assert(out@.contains(out@[k]));
            let j = choose|j: int| 0 <= j < tiles.len() && tiles[j] == out@[k];
            assert(offsets@[j].0 >= -3);
            assert(blanket(level)[j] == (offsets@[j].0 as int, offsets@[j].1 as int));
        }
    }
    out
}

proof fn lemma_same_members(a: Seq<(u8, u8)>, b: Seq<(u8, u8)>)
    requires
        a.to_multiset() == b.to_multiset(),
    ensures
        forall|x: (u8, u8)| a.contains(x) <==> b.contains(x),
        a.len() == b.len(),
{
    broadcast use vstd::seq_lib::group_to_multiset_ensures;

    a.to_multiset_ensures();
    b.to_multiset_ensures();
    assert(a.to_multiset().len() == b.to_multiset().len());
    assert forall|x: (u8, u8)| a.contains(x) <==> b.contains(x) by {
        assert(a.contains(x) <==> a.to_multiset().count(x) > 0);
        assert(b.contains(x) <==> b.to_multiset().count(x) > 0);
    }
}

/// The structures of a stronghold: its core, then its ramparts.
pub open spec fn stronghold_structures(level: u8) -> Seq<SimStructure> {
    seq![core_at((25, 25))] + Seq::new(
        blanket(level).len(),
        |i: int|
            SimStructure {
                id: (STRUCTURE_ID_BASE + 1 + tower_offsets(level).len() + i) as u32,
                kind: StructureKind::Rampart,
                owner: Some(DEFENDER),
                pos: tile_in(
                    stronghold_room(),
                    25 + blanket(level)[i].0,
                    25 + blanket(level)[i].1,
                ),
                hits: rampart_hits_of(level),
                hits_max: rampart_hits_of(level),
            },
    )
}

pub open spec fn core_at(core: (u8, u8)) -> SimStructure {
    SimStructure {
        id: STRUCTURE_ID_BASE,
        kind: StructureKind::InvaderCore,
        owner: Some(DEFENDER),
        pos: tile_in(stronghold_room(), core.0 as int, core.1 as int),
        hits: CORE_HITS,
        hits_max: CORE_HITS,
    }
}

pub open spec fn stronghold_towers(level: u8) -> Seq<SimTower> {
    Seq::new(
        tower_offsets(level).len(),
        |i: int|
            SimTower {
                id: (STRUCTURE_ID_BASE + 1 + i) as u32,
                owner: DEFENDER,
                pos: tile_in(
                    stronghold_room(),
                    25 + tower_offsets(level)[i].0,
                    25 + tower_offsets(level)[i].1,
                ),
                energy: TOWER_ENERGY,
                hits: TOWER_HITS,
            },
    )
}

pub open spec fn front_offsets() -> Seq<(int, int)> {
    seq![(-1int, -1int), (0int, -1int), (-1int, 1int), (0int, 1int)]
}

pub open spec fn support_offsets() -> Seq<(int, int)> {
    seq![(-2int, -2int), (-1int, -2int), (0int, -2int), (-2int, -1int), (-2int, 0int)]
}

pub open spec fn tiles_beside(core: (u8, u8), offsets: Seq<(int, int)>) -> Seq<WPos> {
    Seq::new(
        offsets.len(),
        |i: int| tile_in(stronghold_room(), core.0 + offsets[i].0, core.1 + offsets[i].1),
    )
}

/// The objective is the core, assaulted from its north-west.
pub open spec fn is_core_objective(o: Objective, core: (u8, u8), entry: WPos) -> bool {
    &&& o.id == STRUCTURE_ID_BASE
    &&& o.room == stronghold_room()
    &&& o.pos == tile_in(stronghold_room(), core.0 as int, core.1 as int)
    &&& o.assault_pos == tile_in(stronghold_room(), core.0 - 1, core.1 - 1)
    &&& o.front_tiles@ == tiles_beside(core, front_offsets())
    &&& o.support_tiles@ == tiles_beside(core, support_offsets())
    &&& o.entry == entry
    &&& o.kind == ObjectiveKind::Raze
}

/// The entry: at the east of the room, or in the middle of the room to the east.
pub open spec fn stronghold_entry(multi_room: bool) -> WPos {
    if multi_room {
        tile_in(staging_room(), 25, 25)
    } else {
        tile_in(stronghold_room(), 46, 25)
    }
}

pub open spec fn stronghold_label(
    level: u8,
    terrain: StrongholdTerrain,
    multi_room: bool,
    terrain_seed: u32,
) -> Seq<char> {
    "stronghold-L"@ + decimal(level as nat) + "-"@ + if terrain == StrongholdTerrain::Open {
        "open"@
    } else {
        "choke"@
    } + if multi_room {
        "-multi"@
    } else {
        ""@
    } + "#s"@ + decimal(terrain_seed as nat)
}

/// What a stronghold or gauntlet scenario has beside its world.
pub open spec fn is_raid(s: Scenario, core: (u8, u8), entry: WPos, seed: u32) -> bool {
    &&& s.world.creeps@.len() == 0
    &&& s.world.controllers@.len() == 0
    &&& s.world.safe_mode_owner is None
    &&& s.objectives@.len() == 1
    &&& is_core_objective(s.objectives@[0], core, entry)
    &&& s.attacker_owner == ATTACKER
    &&& s.defender_owner == DEFENDER
    &&& s.member_energy == 5600
    &&& s.onsite_budget == 1400
    &&& s.seed == seed
}

/// The state from which a level's defenders are drawn.
pub open spec fn population_state(level: u8, seed: u32) -> u64 {
    seed_state(seed.wrapping_mul(1069).wrapping_add(level as u32))
}

pub open spec fn defender_spots(level: u8, seed: u32) -> Seq<DefenderSpot> {
    let bodies = population(level, population_state(level, seed));
    Seq::new(bodies.len(), |i: int| defender_spot(level, bodies, i))
}

pub open spec fn defender_spot(level: u8, bodies: Seq<BodyKind>, i: int) -> DefenderSpot {
    let at = spots(level)[i % spots(level).len() as int];
    DefenderSpot {
        id: (DEFENDER_ID_BASE + i) as u32,
        pos: tile_in(stronghold_room(), at.0 as int, at.1 as int),
        body: bodies[i],
    }
}

fn tiles_at(core: (u8, u8), offsets: &Vec<(i32, i32)>) -> (r: Vec<WPos>)
    requires
        3 <= core.0 < 47,
        3 <= core.1 < 47,
        close_by(offsets@),
    ensures
        r@ == tiles_beside(core, as_offsets(offsets@)),
        forall|i: int| 0 <= i < r@.len() ==> (#[trigger] r@[i]).in_world(),
{
    let ghost want = tiles_beside(core, as_offsets(offsets@));
    let mut out: Vec<WPos> = Vec::new();
    let mut i: usize = 0;
    while i < offsets.len()
        invariant
            i <= offsets@.len(),
            3 <= core.0 < 47,
            3 <= core.1 < 47,
            close_by(offsets@),
            want == tiles_beside(core, as_offsets(offsets@)),
            out@ == want.take(i as int),
            forall|k: int| 0 <= k < out@.len() ==> (#[trigger] out@[k]).in_world(),
        decreases offsets.len() - i,
    {
        let o: (i32, i32) = offsets[i];
        assert(-3 <= offsets@[i as int].0 <= 3);
        let x: u8 = (core.0 as i32 + o.0) as u8;
        let y: u8 = (core.1 as i32 + o.1) as u8;
        out.push(pos_in((-6, -6), x, y));
        i = i + 1;
        assert(out@ =~= want.take(i as int));
    }
    assert(out@ =~= want);
    out
}

pub(crate) fn core_objective(core: (u8, u8), entry: WPos) -> (o: Objective)
    requires
        3 <= core.0 < 47,
        3 <= core.1 < 47,
        entry.in_world(),
    ensures
        is_core_objective(o, core, entry),
        o.wf(),
{
    let front: Vec<(i32, i32)> = vec![(-1, -1), (0, -1), (-1, 1), (0, 1)];
    assert(as_offsets(front@) =~= front_offsets());
    let support: Vec<(i32, i32)> = vec![(-2, -2), (-1, -2), (0, -2), (-2, -1), (-2, 0)];
    assert(as_offsets(support@) =~= support_offsets());
    Objective {
        id: STRUCTURE_ID_BASE,
        room: (-6, -6),
        pos: pos_in((-6, -6), core.0, core.1),
        assault_pos: pos_in((-6, -6), core.0 - 1, core.1 - 1),
        front_tiles: tiles_at(core, &front),
        support_tiles: tiles_at(core, &support),
        entry,
        kind: ObjectiveKind::Raze,
    }
}

pub(crate) fn core_structure(core: (u8, u8)) -> (s: SimStructure)
    requires
        core.0 < 50,
        core.1 < 50,
    ensures
        s == core_at(core),
        s.pos.in_world(),
{
    SimStructure {
        id: STRUCTURE_ID_BASE,
        kind: StructureKind::InvaderCore,
        owner: Some(DEFENDER),
        pos: pos_in((-6, -6), core.0, core.1),
        hits: CORE_HITS,
        hits_max: CORE_HITS,
    }
}

pub(crate) fn raid_scenario(
    structures: Vec<SimStructure>,
    towers: Vec<SimTower>,
    objective: Objective,
    label: String,
    seed: u32,
) -> (s: Scenario)
    requires
        objective.wf(),
        forall|i: int| 0 <= i < structures@.len() ==> (#[trigger] structures@[i]).pos.in_world(),
        forall|i: int| 0 <= i < towers@.len() ==> (#[trigger] towers@[i]).pos.in_world(),
    ensures
        s.world.structures@ == structures@,
        s.world.towers@ == towers@,
        s.label@ == label@,
        s.objectives@ == seq![objective],
        s.wf(),
        forall|core: (u8, u8)|
            is_core_objective(objective, core, objective.entry) ==> #[trigger] is_raid(
                s,
                core,
                objective.entry,
                seed,
            ),
{
    let mut objectives: Vec<Objective> = Vec::new();
    objectives.push(objective);
    assert(objectives@ =~= seq![objective]);
    Scenario {
        world: CombatWorld {
            creeps: Vec::new(),
            structures,
            towers,
            controllers: Vec::new(),
            safe_mode_owner: None,
        },
        objectives,
        attacker_owner: ATTACKER,
        defender_owner: DEFENDER,
        member_energy: 5600,
        onsite_budget: 1400,
        label,
        seed: seed as u64,
    }
}

/// Strongholds as scenarios.
#[derive(Clone, Copy, Debug)]
pub struct StrongholdScenario;

impl StrongholdScenario {
    /// The scenario of a level, and its defenders where they are put down.
    /// `terrain_seed` is the seed whose caves were accepted.
    pub fn build(
        level: u8,
        terrain: StrongholdTerrain,
        multi_room: bool,
        seed: u32,
        terrain_seed: u32,
    ) -> (r: (Scenario, Vec<DefenderSpot>))
        requires
            1 <= level <= 5,
        ensures
            r.0.world.structures@ == stronghold_structures(level),
            r.0.world.towers@ == stronghold_towers(level),
            r.0.label@ == stronghold_label(level, terrain, multi_room, terrain_seed),
            is_raid(r.0, (25, 25), stronghold_entry(multi_room), seed),
            r.0.wf(),
            r.1@ == defender_spots(level, seed),
    {
        let offsets: Vec<(i32, i32)> = list_towers(level);
        let tower_tiles: Vec<WPos> = tiles_at((25, 25), &offsets);
        let mut towers: Vec<SimTower> = Vec::new();
        let mut i: usize = 0;
        while i < tower_tiles.len()
            invariant
                i <= tower_tiles@.len() <= 6,
                tower_tiles@ == tiles_beside((25, 25), tower_offsets(level)),
                forall|k: int|
                    0 <= k < tower_tiles@.len() ==> (#[trigger] tower_tiles@[k]).in_world(),
                towers@ == stronghold_towers(level).take(i as int),
                forall|k: int| 0 <= k < towers@.len() ==> (#[trigger] towers@[k]).pos.in_world(),
            decreases tower_tiles.len() - i,
        {
            towers.push(
                SimTower {
                    id: STRUCTURE_ID_BASE + 1 + i as u32,
                    owner: DEFENDER,
                    pos: tower_tiles[i],
                    energy: TOWER_ENERGY,
                    hits: TOWER_HITS,
                },
            );
            i = i + 1;
            assert(towers@ =~= stronghold_towers(level).take(i as int));
        }
        assert(towers@ =~= stronghold_towers(level));
        let structures: Vec<SimStructure> = Self::structures(level, towers.len());
        let entry: WPos = if multi_room {
            pos_in((-5, -6), 25, 25)
        } else {
            pos_in((-6, -6), 46, 25)
        };
        let mut label: String = String::from_str("stronghold-L");
        push_decimal(&mut label, level as u64);
        label.append("-");
        if terrain == StrongholdTerrain::Open {
            label.append("open");
        } else {
            label.append("choke");
        }
        if multi_room {
            label.append("-multi");
        } else {
            label.append("");
        }
        label.append("#s");
        push_decimal(&mut label, terrain_seed as u64);
        let objective: Objective = core_objective((25, 25), entry);
        let s: Scenario = raid_scenario(structures, towers, objective, label, seed);
        (s, Self::defenders(level, seed))
    }

    fn structures(level: u8, n_towers: usize) -> (r: Vec<SimStructure>)
        requires
            1 <= level <= 5,
            n_towers == tower_offsets(level).len(),
        ensures
            r@ == stronghold_structures(level),
            forall|i: int| 0 <= i < r@.len() ==> (#[trigger] r@[i]).pos.in_world(),
    {
        let offsets: Vec<(i32, i32)> = list_blanket(level);
        let tiles: Vec<WPos> = tiles_at((25, 25), &offsets);
        let hits: u32 = rampart_hits(level);
        let mut structures: Vec<SimStructure> = Vec::new();
        structures.push(core_structure((25, 25)));
        let mut i: usize = 0;
        assert(structures@ =~= stronghold_structures(level).take(1));
        while i < tiles.len()
            invariant
                i <= tiles@.len() <= 45,
                n_towers <= 6,
                n_towers == tower_offsets(level).len(),
                hits == rampart_hits_of(level),
                tiles@ == tiles_beside((25, 25), blanket(level)),
                forall|k: int| 0 <= k < tiles@.len() ==> (#[trigger] tiles@[k]).in_world(),
                structures@ == stronghold_structures(level).take(i as int + 1),
                forall|k: int|
                    0 <= k < structures@.len() ==> (#[trigger] structures@[k]).pos.in_world(),
            decreases tiles.len() - i,
        {
            structures.push(
                SimStructure {
                    id: STRUCTURE_ID_BASE + 1 + n_towers as u32 + i as u32,
                    kind: StructureKind::Rampart,
                    owner: Some(DEFENDER),
                    pos: tiles[i],
                    hits,
                    hits_max: hits,
                },
            );
            i = i + 1;
            assert(structures@ =~= stronghold_structures(level).take(i as int + 1));
        }
        assert(structures@ =~= stronghold_structures(level));
        structures
    }

    fn defenders(level: u8, seed: u32) -> (r: Vec<DefenderSpot>)
        requires
            1 <= level <= 5,
        ensures
            r@ == defender_spots(level, seed),
    {
        let mut rng = Rng::seeded(seed.wrapping_mul(1069).wrapping_add(level as u32));
        let bodies: Vec<BodyKind> = defender_bodies(level, &mut rng);
        let at: Vec<(u8, u8)> = sorted_spots(level);
        let ghost want = defender_spots(level, seed);
        let mut out: Vec<DefenderSpot> = Vec::new();
        let mut i: usize = 0;
        while i < bodies.len()
            invariant
                i <= bodies@.len() <= 9,
                bodies@ == population(level, population_state(level, seed)),
                at@ == spots(level),
                at@.len() > 0,
                forall|k: int| 0 <= k < at@.len() ==> (#[trigger] at@[k]).0 < 50 && at@[k].1 < 50,
                want == defender_spots(level, seed),
                out@ == want.take(i as int),
            decreases bodies.len() - i,
        {
            let t: (u8, u8) = at[i % at.len()];
            assert(at@[i as int % at@.len() as int] == t);
            out.push(
                DefenderSpot {
                    id: DEFENDER_ID_BASE + i as u32,
                    pos: pos_in((-6, -6), t.0, t.1),
                    body: bodies[i],
                },
            );
            i = i + 1;
            assert(out@ =~= want.take(i as int));
        }
        assert(out@ =~= want);
        out
    }
}

// ── What a stronghold is made of ───────────────────────────────────────────

/// A level's ramparts are as strong as twice, five, ten and twenty times the first level's.
pub proof fn ramparts_grow_with_the_level()
    ensures
        rampart_hits_of(1) == 100_000,
        rampart_hits_of(2) == 2 * rampart_hits_of(1),
        rampart_hits_of(3) == 5 * rampart_hits_of(1),
        rampart_hits_of(4) == 10 * rampart_hits_of(1),
        rampart_hits_of(5) == 20 * rampart_hits_of(1),
{
}

/// The tile is in the block that a level's ramparts cover: a square with the core in it that
/// grows by a row and a column a level, and at the fifth seven tiles wide without its corners.
pub open spec fn in_block(level: u8, x: int, y: int) -> bool {
    if level == 1 {
        0 <= x <= 1 && 0 <= y <= 1
    } else if level == 2 {
        -1 <= x <= 1 && -1 <= y <= 1
    } else if level == 3 {
        -2 <= x <= 1 && -1 <= y <= 2
    } else if level == 4 {
        -2 <= x <= 2 && -2 <= y <= 2
    } else {
        -3 <= x <= 3 && -3 <= y <= 3 && !((x == 3 || x == -3) && (y == 3 || y == -3))
    }
}

proof fn lemma_block_1(x: int, y: int)
    requires
        in_block(1, x, y),
    ensures
        blanket(1).contains((x, y)),
{
    let b = blanket(1);
    if x == 0 {
        assert(b[0] == (0int, 0int));
        assert(b[2] == (0int, 1int));
    }
    if x == 1 {
        assert(b[1] == (1int, 1int));
        assert(b[3] == (1int, 0int));
    }
}

proof fn lemma_block_2(x: int, y: int)
    requires
        in_block(2, x, y),
    ensures
        blanket(2).contains((x, y)),
{
    let b = blanket(2);
    if x == -1 {
        assert(b[2] == (-1int, -1int));
        assert(b[5] == (-1int, 1int));
        assert(b[8] == (-1int, 0int));
    }
    if x == 0 {
        assert(b[0] == (0int, 0int));
        assert(b[3] == (0int, -1int));
        assert(b[6] == (0int, 1int));
    }
    if x == 1 {
        assert(b[1] == (1int, 1int));
        assert(b[4] == (1int, -1int));
        assert(b[7] == (1int, 0int));
    }
}

proof fn lemma_block_3(x: int, y: int)
    requires
        in_block(3, x, y),
    ensures
        blanket(3).contains((x, y)),
{
    let b = blanket(3);
    if x == -2 {
        assert(b[4] == (-2int, -1int));
        assert(b[8] == (-2int, 1int));
        assert(b[10] == (-2int, 2int));
        assert(b[14] == (-2int, 0int));
    }
    if x == -1 {
        assert(b[2] == (-1int, -1int));
        assert(b[3] == (-1int, 1int));
        assert(b[6] == (-1int, 0int));
        assert(b[11] == (-1int, 2int));
    }
    if x == 0 {
        assert(b[0] == (0int, 0int));
        assert(b[5] == (0int, -1int));
        assert(b[9] == (0int, 1int));
        assert(b[15] == (0int, 2int));
    }
    if x == 1 {
        assert(b[1] == (1int, 1int));
        assert(b[7] == (1int, 0int));
        assert(b[12] == (1int, 2int));
        assert(b[13] == (1int, -1int));
    }
}

proof fn lemma_block_4(x: int, y: int)
    requires
        in_block(4, x, y),
    ensures
        blanket(4).contains((x, y)),
{
    let b = blanket(4);
    if x == -2 {
        assert(b[5] == (-2int, -2int));
        assert(b[9] == (-2int, -1int));
        assert(b[14] == (-2int, 1int));
        assert(b[17] == (-2int, 2int));
        assert(b[22] == (-2int, 0int));
    }
    if x == -1 {
        assert(b[2] == (-1int, -1int));
        assert(b[3] == (-1int, 1int));
        assert(b[6] == (-1int, -2int));
        assert(b[12] == (-1int, 0int));
        assert(b[18] == (-1int, 2int));
    }
    if x == 0 {
        assert(b[0] == (0int, 0int));
        assert(b[10] == (0int, -1int));
        assert(b[15] == (0int, 1int));
        assert(b[23] == (0int, 2int));
        assert(b[24] == (0int, -2int));
    }
    if x == 1 {
        assert(b[1] == (1int, 1int));
        assert(b[4] == (1int, -1int));
        assert(b[7] == (1int, -2int));
        assert(b[13] == (1int, 0int));
        assert(b[19] == (1int, 2int));
    }
    if x == 2 {
        assert(b[8] == (2int, -2int));
        assert(b[11] == (2int, -1int));
        assert(b[16] == (2int, 1int));
        assert(b[20] == (2int, 2int));
        assert(b[21] == (2int, 0int));
    }
}

proof fn lemma_block_5(x: int, y: int)
    requires
        in_block(5, x, y),
    ensures
        blanket(5).contains((x, y)),
{
    let b = blanket(5);
    if x == -3 {
        assert(b[12] == (-3int, -2int));
        assert(b[16] == (-3int, -1int));
        assert(b[21] == (-3int, 0int));
        assert(b[27] == (-3int, 1int));
        assert(b[32] == (-3int, 2int));
    }
    if x == -2 {
        assert(b[7] == (-2int, -3int));
        assert(b[17] == (-2int, -1int));
        assert(b[22] == (-2int, 0int));
        assert(b[28] == (-2int, 1int));
        assert(b[36] == (-2int, 3int));
        assert(b[42] == (-2int, -2int));
        assert(b[44] == (-2int, 2int));
    }
    if x == -1 {
        assert(b[2] == (-1int, -1int));
        assert(b[3] == (-1int, 1int));
        assert(b[8] == (-1int, -3int));
        assert(b[13] == (-1int, -2int));
        assert(b[23] == (-1int, 0int));
        assert(b[33] == (-1int, 2int));
        assert(b[37] == (-1int, 3int));
    }
    if x == 0 {
        assert(b[0] == (0int, 0int));
        assert(b[5] == (0int, -2int));
        assert(b[6] == (0int, 2int));
        assert(b[9] == (0int, -3int));
        assert(b[18] == (0int, -1int));
        assert(b[29] == (0int, 1int));
        assert(b[38] == (0int, 3int));
    }
    if x == 1 {
        assert(b[1] == (1int, 1int));
        assert(b[4] == (1int, -1int));
        assert(b[10] == (1int, -3int));
        assert(b[14] == (1int, -2int));
        assert(b[24] == (1int, 0int));
        assert(b[34] == (1int, 2int));
        assert(b[39] == (1int, 3int));
    }
    if x == 2 {
        assert(b[11] == (2int, -3int));
        assert(b[19] == (2int, -1int));
        assert(b[25] == (2int, 0int));
        assert(b[30] == (2int, 1int));
        assert(b[40] == (2int, 3int));
        assert(b[41] == (2int, 2int));
        assert(b[43] == (2int, -2int));
    }
    if x == 3 {
        assert(b[15] == (3int, -2int));
        assert(b[20] == (3int, -1int));
        assert(b[26] == (3int, 0int));
        assert(b[31] == (3int, 1int));
        assert(b[35] == (3int, 2int));
    }
}

/// The ramparts of a level cover its block, every tile of it once: there are as many as
/// tiles, none lies outside, and no tile is bare.
pub proof fn ramparts_cover_the_block(level: u8, x: int, y: int, i: int)
    requires
        1 <= level <= 5,
    ensures
        in_block(level, x, y) ==> blanket(level).contains((x, y)),
        0 <= i < blanket(level).len() ==> in_block(level, blanket(level)[i].0, blanket(level)[i].1),
        level <= 4 ==> blanket(level).len() == (level + 1) * (level + 1),
        level == 5 ==> blanket(level).len() == 7 * 7 - 4,
        blanket(level)[0] == (0int, 0int),
{
    if in_block(level, x, y) {
        if level == 1 {
            lemma_block_1(x, y);
        } else if level == 2 {
            lemma_block_2(x, y);
        } else if level == 3 {
            lemma_block_3(x, y);
        } else if level == 4 {
            lemma_block_4(x, y);
        } else {
            lemma_block_5(x, y);
        }
    }
    if level <= 4 {
        let n = level as int;
        assert(n == 1 || n == 2 || n == 3 || n == 4);
        assert(2int * 2 == 4 && 3int * 3 == 9 && 4int * 4 == 16 && 5int * 5 == 25);
    }
}

/// A level has its towers at the corners next to the core, as many as its number up to four
/// and in the same order; the fifth adds one two tiles north and one two tiles south. Every
/// tower stands under a rampart.
pub proof fn towers_stand_at_the_corners(level: u8, i: int)
    requires
        1 <= level <= 5,
        0 <= i < tower_offsets(level).len(),
    ensures
        level <= 4 ==> tower_offsets(level).len() == level,
        tower_offsets(5).len() == 6,
        tower_offsets(level)[i] == tower_offsets(5)[i],
        i == 0 ==> tower_offsets(level)[i] == (1int, 1int),
        i == 1 ==> tower_offsets(level)[i] == (-1int, -1int),
        i == 2 ==> tower_offsets(level)[i] == (-1int, 1int),
        i == 3 ==> tower_offsets(level)[i] == (1int, -1int),
        i == 4 ==> tower_offsets(level)[i] == (0int, -2int),
        i == 5 ==> tower_offsets(level)[i] == (0int, 2int),
        blanket(level).contains(tower_offsets(level)[i]),
{
    let t = tower_offsets(level)[i];
    ramparts_cover_the_block(level, t.0, t.1, 0);
}

/// The bodies: strikers and shooters of one grade differ only in the part that they fight
/// with; up to the second boost a body has a moving part for every fighting one, at the third
/// it is forty-four and six, all boosted.
pub proof fn bodies_are_built_by_grade(k: BodyKind)
    ensures
        ({
            let p = parts_of(k);
            &&& p.last().part is Move
            &&& k is Fortifier ==> p.len() == 3 && p[0] == (PartRun {
                part: Part::Work,
                count: 15,
                boost: BoostTier::T3,
            }) && p[1].part is Carry && p[1].count == 15 && p[1].boost is T0 && p[2].count == 15
                && p[2].boost is T0
            &&& !(k is Fortifier) ==> p.len() == 2
            &&& k is WeakDefender ==> p[0].part is Attack && p[0].count == 15 && p[0].boost is T0
            &&& k is FullDefender || k is BoostedDefender ==> p[0].part is Attack && p[0].count
                == 25
            &&& k is FullDefender || k is RangedCamper ==> p[0].boost is T0
            &&& k is BoostedRanger ==> p[0].part is RangedAttack && p[0].count == 25
            &&& k is BoostedDefender || k is BoostedRanger ==> p[0].boost is T2
            &&& k is RangedCamper ==> p[0].part is RangedAttack && p[0].count == 20
            &&& k is FullBoostedMelee ==> p[0].part is Attack
            &&& k is FullBoostedRanger ==> p[0].part is RangedAttack
            &&& k is FullBoostedMelee || k is FullBoostedRanger ==> p[0].count == 44 && p[0].boost
                is T3 && p[1].count == 6 && p[1].boost is T3
            &&& !(k is FullBoostedMelee || k is FullBoostedRanger || k is Fortifier)
                ==> p[1].count == p[0].count && p[1].boost is T0
        }),
{
}

/// What is dealt was in the deck, and no card is dealt oftener than the deck holds it.
pub proof fn cards_are_dealt_once(deck: Seq<BodyKind>, take: nat, s: u64, k: BodyKind)
    requires
        deck.len() <= 100,
    ensures
        dealt(deck, take, s).to_multiset().count(k) <= deck.to_multiset().count(k),
    decreases take,
{
    broadcast use vstd::multiset::group_multiset_axioms;
    broadcast use vstd::multiset::group_multiset_properties;

    if take > 0 && deck.len() > 0 {
        let hi = (deck.len() - 1) as u32;
        draw_is_in_bounds(s, 0, hi);
        let i = drawn_in(s, 0, hi) as int;
        let moved = deck.update(i, deck.last());
        let rest = moved.drop_last();
        cards_are_dealt_once(rest, (take - 1) as nat, next_state(s), k);
        let d = dealt(rest, (take - 1) as nat, next_state(s));
        vstd::seq_lib::to_multiset_update(deck, i, deck.last());
        assert(moved =~= rest.push(deck.last()));
        vstd::seq_lib::to_multiset_build(rest, deck.last());
        assert(seq![deck[i]] + d =~= d.insert(0, deck[i]));
        vstd::seq_lib::to_multiset_insert(d, 0, deck[i]);
        vstd::seq_lib::to_multiset_contains(deck, deck[i]);
        assert(deck.contains(deck[i]));
        let m = deck.to_multiset();
        assert(m.insert(deck.last()).count(deck[i]) > 0);
        assert(rest.to_multiset().insert(deck.last()) == m.insert(deck.last()).remove(deck[i]));
        let (r, last, x) = (rest.to_multiset(), deck.last(), deck[i]);
        assert(r.insert(last).count(k) == r.count(k) + (if k == last {
            1nat
        } else {
            0nat
        }));
        assert(m.insert(last).count(k) == m.count(k) + (if k == last {
            1nat
        } else {
            0nat
        }));
        assert(m.insert(last).remove(x).count(k) == m.insert(last).count(k) - (if k == x {
            1nat
        } else {
            0nat
        }));
    } else {
        assert(dealt(deck, take, s) =~= Seq::<BodyKind>::empty());
        vstd::seq_lib::to_multiset_contains(Seq::<BodyKind>::empty(), k);
    }
}

/// The garrisons: none, a weak striker, two strikers, four of a mixed deck, and at the fifth
/// level a fortifier in front of eight fully boosted fighters.
pub proof fn garrisons_grow_with_the_level(s: u64, j: int)
    ensures
        population(1, s).len() == 0,
        population(2, s) == seq![BodyKind::WeakDefender],
        0 <= j < 2 ==> population(3, s)[j] is FullDefender,
        0 <= j < 4 ==> population(4, s)[j] is Fortifier || population(4, s)[j] is BoostedDefender
            || population(4, s)[j] is BoostedRanger,
        population(5, s)[0] is Fortifier,
        1 <= j < 9 ==> population(5, s)[j] is FullBoostedMelee || population(5, s)[j]
            is FullBoostedRanger,
{
    lemma_dealt_len(fourth_deck(), 4, s);
    lemma_dealt_len(fifth_deck(), 8, s);
    if 0 <= j < 4 {
        let d = dealt(fourth_deck(), 4, s);
        assert(fourth_deck().contains(d[j]));
        let k = choose|k: int| 0 <= k < fourth_deck().len() && fourth_deck()[k] == d[j];
    }
    if 1 <= j < 9 {
        let d = dealt(fifth_deck(), 8, s);
        assert(population(5, s)[j] == d[j - 1]);
        assert(fifth_deck().contains(d[j - 1]));
        let k = choose|k: int| 0 <= k < fifth_deck().len() && fifth_deck()[k] == d[j - 1];
    }
}

/// The decks: one fortifier with four strikers and three shooters; seven strikers with nine
/// shooters.
pub proof fn decks_are_mixed(i: int)
    ensures
        fourth_deck().len() == 8,
        fifth_deck().len() == 16,
        i == 0 ==> fourth_deck()[i] is Fortifier,
        1 <= i < 5 ==> fourth_deck()[i] is BoostedDefender,
        5 <= i < 8 ==> fourth_deck()[i] is BoostedRanger,
        0 <= i < 7 ==> fifth_deck()[i] is FullBoostedMelee,
        7 <= i < 16 ==> fifth_deck()[i] is FullBoostedRanger,
{
}

/// Defenders stand on the rampart tiles, the easternmost first and from north to south.
pub proof fn defenders_stand_east_first(level: u8, i: int, j: int)
    requires
        1 <= level <= 5,
        0 <= i < j < spots(level).len(),
    ensures
        spots(level).len() == blanket(level).len(),
        spots(level)[i].0 >= spots(level)[j].0,
        spots(level)[i].0 == spots(level)[j].0 ==> spots(level)[i].1 <= spots(level)[j].1,
        blanket_tiles(level).contains(spots(level)[i]),
{
    lemma_east_first_total();
    let tiles = blanket_tiles(level);
    tiles.lemma_sort_by_ensures(east_first());
    lemma_same_members(spots(level), tiles);
    let f = east_first();
    assert(f(spots(level)[i], spots(level)[j]));
    assert(spots(level).contains(spots(level)[i]));
}

/// A rampart's tile lies from the core's as its offset says.
pub proof fn ramparts_lie_round_the_core(level: u8, i: int)
    requires
        1 <= level <= 5,
        0 <= i < blanket(level).len(),
    ensures
        blanket_tiles(level)[i].0 - 25 == blanket(level)[i].0,
        blanket_tiles(level)[i].1 - 25 == blanket(level)[i].1,
{
    ramparts_cover_the_block(level, 0, 0, i);
}

/// The core, the towers and the ramparts have ids in a row, each its own; the core and the
/// ramparts are whole and the defender's.
pub proof fn structures_have_their_ids(level: u8, i: int)
    requires
        1 <= level <= 5,
    ensures
        ({
            let n = tower_offsets(level).len() as int;
            let s = stronghold_structures(level);
            let t = stronghold_towers(level);
            &&& s.len() == 1 + blanket(level).len() && t.len() == n
            &&& s[0].id == 1_000_000 && s[0].kind is InvaderCore && s[0].hits == 100_000
                && s[0].hits_max == 100_000 && s[0].owner == Some(1u32)
            &&& s[0].pos == tile_in((-6i32 as i32, -6i32 as i32), 25, 25)
            &&& 0 <= i < n ==> t[i].id == 1_000_001 + i && t[i].owner == 1 && t[i].hits == 3000
                && t[i].energy == 100_000 && t[i].pos.wx - s[0].pos.wx == tower_offsets(level)[i].0
                && t[i].pos.wy - s[0].pos.wy == tower_offsets(level)[i].1
            &&& 1 <= i < s.len() ==> s[i].id == 1_000_000 + n + i && s[i].kind is Rampart
                && s[i].owner == Some(1u32) && s[i].hits == s[i].hits_max && s[i].hits
                == rampart_hits_of(level) && s[i].pos.wx - s[0].pos.wx == blanket(level)[i - 1].0
                && s[i].pos.wy - s[0].pos.wy == blanket(level)[i - 1].1
        }),
{
    if 0 <= i < tower_offsets(level).len() {
        towers_stand_at_the_corners(level, i);
    }
    ramparts_cover_the_block(level, 0, 0, i - 1);
}

/// An assault enters twenty-one tiles east of the core in its own room, or from the middle of
/// the next room east.
pub proof fn an_assault_enters_from_the_east()
    ensures
        stronghold_entry(false).wx - tile_in(stronghold_room(), 25, 25).wx == 21,
        stronghold_entry(false).wy == tile_in(stronghold_room(), 25, 25).wy,
        stronghold_entry(true).wx - tile_in(stronghold_room(), 25, 25).wx == 50,
        stronghold_entry(true).wy == tile_in(stronghold_room(), 25, 25).wy,
        staging_room().0 == stronghold_room().0 + 1,
        staging_room().1 == stronghold_room().1,
        stronghold_room().0 == -6 && stronghold_room().1 == -6,
{
}

/// The core is assaulted from the tile to its north-west, by dismantlers that touch it and
/// healers two tiles off that touch the first of them.
pub proof fn a_core_is_assaulted_from_the_north_west(
    o: Objective,
    core: (u8, u8),
    entry: WPos,
    i: int,
)
    requires
        is_core_objective(o, core, entry),
        3 <= core.0 < 47,
        3 <= core.1 < 47,
    ensures
        o.assault_pos.wx == o.pos.wx - 1 && o.assault_pos.wy == o.pos.wy - 1,
        o.front_tiles@.len() == 4 && o.support_tiles@.len() == 5,
        o.front_tiles@[0] == o.assault_pos,
        0 <= i < 4 ==> o.front_tiles@[i].tiles_to(o.pos) == 1 && o.front_tiles@[i].wx <= o.pos.wx,
        0 <= i < 5 ==> o.support_tiles@[i].tiles_to(o.pos) == 2 && o.support_tiles@[i].tiles_to(
            o.assault_pos,
        ) == 1,
        o.id == 1_000_000 && o.kind is Raze && o.entry == entry,
{
}

/// The terms of a raid.
pub proof fn a_raid_has_its_terms(s: Scenario, core: (u8, u8), entry: WPos, seed: u32)
    requires
        is_raid(s, core, entry, seed),
    ensures
        s.member_energy == 5600,
        s.onsite_budget == 1400,
        s.attacker_owner == 0 && s.defender_owner == 1,
        s.objectives@.len() == 1 && s.world.creeps@.len() == 0,
        s.seed == seed,
{
}

/// A level's defenders have their own ids, in order, and the bodies that were drawn for its
/// seed.
pub proof fn defenders_have_their_ids(level: u8, seed: u32, i: int)
    requires
        1 <= level <= 5,
        0 <= i < defender_spots(level, seed).len(),
    ensures
        defender_spots(level, seed)[i].id == 10_000 + i,
        defender_spots(level, seed)[i].body == population(level, population_state(level, seed))[i],
        defender_spots(level, seed).len() == population(
            level,
            population_state(level, seed),
        ).len(),
        population_state(level, seed) == seed_state(
            ((1069 * seed + level) % 0x1_0000_0000) as u32,
        ),
{
    population_sizes(level, population_state(level, seed));
}

} // verus!
