//! The self-play corpus: matches on mirrored real terrain, with the rosters of both sides
//! and the ground that they start from.

use crate::caves::{adjoin, connects, is_walk, lemma_walk_on, lemma_walk_stays, passable};
use crate::colony::{count_true, lemma_count_bound, lemma_filter_take, no_flags};
use crate::generate::{ATTACKER, DEFENDER, STRUCTURE_ID_BASE, TOWER_HITS};
use crate::lanchester::Placed;
use crate::param_sweep::lower;
use crate::position::{abs_of, max_of, name_fits, room_of_name, room_read, WPos};
use crate::rng::seed_state;
use crate::roster::{bodies_of, drawn_squad, sample_squad, Part};
use crate::scenario::{Objective, ObjectiveKind, Scenario};
use crate::terrain_import::{
    decode_terrain, decoded, in_room, lemma_count_set, tile_index, CombatTerrain, TerrainFixture,
    TerrainView, TILES,
};
use crate::text::{decimal, push_decimal};
use crate::world::{
    pos_in, room_in_world, tile_in, CombatWorld, SimStructure, SimTower, StructureKind,
};
use vstd::prelude::*;

verus! {

// ── Mirrored terrain ───────────────────────────────────────────────────────

/// The column of the left half that a column shows.
pub open spec fn mirrored(x: int) -> int {
    if x < 25 {
        x
    } else {
        49 - x
    }
}

/// The ground at both ends of the middle rows, which is always open.
pub open spec fn is_landing(x: int, y: int) -> bool {
    mirrored(x) < 12 && 18 <= y < 32
}

/// The left half and its mirror image, with the landings cleared.
pub open spec fn symmetric(ground: TerrainView) -> TerrainView {
    TerrainView {
        walls: Seq::new(
            TILES as nat,
            |i: int|
                !is_landing(i % 50, i / 50) && ground.walls[tile_index(mirrored(i % 50), i / 50)],
        ),
        swamps: Seq::new(
            TILES as nat,
            |i: int|
                !is_landing(i % 50, i / 50) && !ground.walls[tile_index(
                    mirrored(i % 50),
                    i / 50,
                )] && ground.swamps[tile_index(mirrored(i % 50), i / 50)],
        ),
    }
}

/// Neither side has the better ground.
pub proof fn ground_is_symmetric(ground: TerrainView, x: int, y: int)
    requires
        in_room(x, y),
    ensures
        symmetric(ground).wall_at(x, y) == symmetric(ground).wall_at(49 - x, y),
        symmetric(ground).swamp_at(x, y) == symmetric(ground).swamp_at(49 - x, y),
{
    let i = tile_index(x, y);
    let j = tile_index(49 - x, y);
    assert(i % 50 == x && i / 50 == y);
    assert(j % 50 == 49 - x && j / 50 == y);
}

/// The terrain of a match, from a real room.
pub fn symmetric_terrain(ground: &CombatTerrain) -> (t: CombatTerrain)
    requires
        ground@.wf(),
    ensures
        t@ == symmetric(ground@),
        t@.wf(),
{
    let ghost want = symmetric(ground@);
    let mut t: CombatTerrain = CombatTerrain::open_room();
    let mut y: u8 = 0;
    while y < 50
        invariant
            y <= 50,
            ground@.wf(),
            t@.wf(),
            want == symmetric(ground@),
            forall|i: int| 0 <= i < 50 * y ==> #[trigger] t@.walls[i] == want.walls[i],
            forall|i: int| 0 <= i < 50 * y ==> #[trigger] t@.swamps[i] == want.swamps[i],
            forall|i: int| 50 * y <= i < TILES ==> !(#[trigger] t@.walls[i]),
            forall|i: int| 50 * y <= i < TILES ==> !(#[trigger] t@.swamps[i]),
        decreases 50 - y,
    {
        let mut x: u8 = 0;
        while x < 50
            invariant
                x <= 50,
                y < 50,
                ground@.wf(),
                t@.wf(),
                want == symmetric(ground@),
                forall|i: int| 0 <= i < 50 * y + x ==> #[trigger] t@.walls[i] == want.walls[i],
                forall|i: int| 0 <= i < 50 * y + x ==> #[trigger] t@.swamps[i] == want.swamps[i],
                forall|i: int| 50 * y + x <= i < TILES ==> !(#[trigger] t@.walls[i]),
                forall|i: int| 50 * y + x <= i < TILES ==> !(#[trigger] t@.swamps[i]),
            decreases 50 - x,
        {
            let m: u8 = if x < 25 {
                x
            } else {
                49 - x
            };
            let ghost at = tile_index(x as int, y as int);
            assert(at % 50 == x && at / 50 == y);
            let landing: bool = m < 12 && 18 <= y && y < 32;
            if !landing {
                if ground.is_wall(m, y) {
                    t.set_wall(x, y, true);
                } else if ground.is_swamp(m, y) {
                    t.set_swamp(x, y, true);
                }
            }
            assert(t@.walls[at] == want.walls[at]);
            assert(t@.swamps[at] == want.swamps[at]);
            x = x + 1;
        }
        y = y + 1;
    }
    assert(t@.walls =~= want.walls);
    assert(t@.swamps =~= want.swamps);
    t
}

// ── The ground that is reached ─────────────────────────────────────────────

pub open spec fn tile_of(c: (u8, u8)) -> (int, int) {
    (c.0 as int, c.1 as int)
}

pub open spec fn index_of(c: (u8, u8)) -> int {
    tile_index(c.0 as int, c.1 as int)
}

/// How many rings lie between two tiles.
pub open spec fn rings(a: (int, int), b: (int, int)) -> int {
    max_of(abs_of(a.0 - b.0), abs_of(a.1 - b.1))
}

/// `a` is looked at no later than `b`: ring by ring, then row by row.
pub open spec fn no_later(seed: (int, int), a: (int, int), b: (int, int)) -> bool {
    ||| rings(seed, a) < rings(seed, b)
    ||| rings(seed, a) == rings(seed, b) && (a.1 < b.1 || (a.1 == b.1 && a.0 <= b.0))
}

/// The first open tile around the seed; the seed itself where no tile is open.
pub open spec fn is_start(walls: Seq<bool>, seed: (int, int), r: (int, int)) -> bool {
    if exists|c: (int, int)| #[trigger] passable(walls, c) {
        passable(walls, r) && forall|c: (int, int)|
            #[trigger] passable(walls, c) ==> no_later(seed, r, c)
    } else {
        r == seed
    }
}

/// A flood in progress: the tiles that wait, and those that were reached in order.
#[verifier::ext_equal]
pub struct Flood {
    pub queue: Seq<(u8, u8)>,
    pub out: Seq<(u8, u8)>,
}

pub open spec fn kept_if(cond: bool, c: (u8, u8)) -> Seq<(u8, u8)> {
    if cond {
        seq![c]
    } else {
        seq![]
    }
}

/// The tiles of the room next to a tile: east, west, south, north.
pub open spec fn beside(c: (u8, u8)) -> Seq<(u8, u8)> {
    kept_if(c.0 < 49, ((c.0 + 1) as u8, c.1)) + kept_if(c.0 > 0, ((c.0 - 1) as u8, c.1)) + kept_if(
        c.1 < 49,
        (c.0, (c.1 + 1) as u8),
    ) + kept_if(c.1 > 0, (c.0, (c.1 - 1) as u8))
}

/// The first waiting tile is reached, unless it is a wall or was reached before.
pub open spec fn flood_step(walls: Seq<bool>, f: Flood) -> Flood {
    if f.queue.len() == 0 {
        f
    } else {
        let c = f.queue[0];
        let rest = f.queue.drop_first();
        if walls[index_of(c)] || f.out.contains(c) {
            Flood { queue: rest, ..f }
        } else {
            Flood { queue: rest + beside(c), out: f.out.push(c) }
        }
    }
}

/// The flood from a tile after `n` steps.
pub open spec fn flood(walls: Seq<bool>, start: (u8, u8), n: nat) -> Flood
    decreases n,
{
    if n == 0 {
        Flood { queue: seq![start], out: seq![] }
    } else {
        flood_step(walls, flood(walls, start, (n - 1) as nat))
    }
}

/// The tiles that the flood from `start` reaches, in the order in which it does.
pub open spec fn is_component(walls: Seq<bool>, start: (u8, u8), tiles: Seq<(u8, u8)>) -> bool {
    exists|n: nat|
        (#[trigger] flood(walls, start, n)).queue.len() == 0 && tiles == flood(
            walls,
            start,
            n,
        ).out
}

pub open spec fn in_bounds(s: Seq<(u8, u8)>) -> bool {
    forall|i: int| 0 <= i < s.len() ==> (#[trigger] s[i]).0 < 50 && s[i].1 < 50
}

/// What holds of a flood at every step.
pub open spec fn flood_holds(walls: Seq<bool>, start: (u8, u8), f: Flood) -> bool {
    &&& in_bounds(f.queue)
    &&& in_bounds(f.out)
    &&& f.out.no_duplicates()
    &&& passable(walls, tile_of(start)) ==> f.out.contains(start) || f.queue.contains(start)
    &&& forall|c: (u8, u8)|
        #[trigger] f.queue.contains(c) && passable(walls, tile_of(c)) ==> connects(
            walls,
            tile_of(start),
            tile_of(c),
        )
    &&& forall|c: (u8, u8)|
        #[trigger] f.out.contains(c) ==> passable(walls, tile_of(c)) && connects(
            walls,
            tile_of(start),
            tile_of(c),
        )
    &&& forall|a: (u8, u8), b: (u8, u8)|
        #![trigger f.out.contains(a), adjoin(tile_of(a), tile_of(b))]
        f.out.contains(a) && adjoin(tile_of(a), tile_of(b)) && passable(walls, tile_of(b))
            ==> f.out.contains(b) || f.queue.contains(b)
}

proof fn lemma_beside(c: (u8, u8), d: (u8, u8))
    requires
        c.0 < 50,
        c.1 < 50,
    ensures
        beside(c).contains(d) <==> d.0 < 50 && d.1 < 50 && adjoin(tile_of(c), tile_of(d)),
        in_bounds(beside(c)),
{
    let e = kept_if(c.0 < 49, ((c.0 + 1) as u8, c.1));
    let w = kept_if(c.0 > 0, ((c.0 - 1) as u8, c.1));
    let s = kept_if(c.1 < 49, (c.0, (c.1 + 1) as u8));
    let n = kept_if(c.1 > 0, (c.0, (c.1 - 1) as u8));
    let all = beside(c);
    assert(all == e + w + s + n);
    if d.0 < 50 && d.1 < 50 && adjoin(tile_of(c), tile_of(d)) {
        if d.0 == c.0 + 1 {
            assert(all[0] == d);
        } else if d.0 + 1 == c.0 {
            assert(all[e.len() as int] == d);
        } else if d.1 == c.1 + 1 {
            assert(all[(e + w).len() as int] == d);
        } else {
            assert(all[(e + w + s).len() as int] == d);
        }
    }
}

proof fn lemma_flood_holds(walls: Seq<bool>, start: (u8, u8), n: nat)
    requires
        walls.len() == TILES,
        start.0 < 50,
        start.1 < 50,
    ensures
        flood_holds(walls, start, flood(walls, start, n)),
    decreases n,
{
    let from = tile_of(start);
    if n == 0 {
        let f = flood(walls, start, 0);
        assert(f.queue[0] == start);
        assert(is_walk(walls, seq![from]));
        assert(seq![from][0] == from && seq![from].last() == from);
    } else {
        let f = flood(walls, start, (n - 1) as nat);
        let g = flood(walls, start, n);
        lemma_flood_holds(walls, start, (n - 1) as nat);
        if f.queue.len() > 0 {
            let c = f.queue[0];
            let rest = f.queue.drop_first();
            assert(f.queue.contains(c));
            assert forall|d: (u8, u8)| d != c && #[trigger] f.queue.contains(d) implies rest.contains(
                d,
            ) by {
                let j = choose|j: int| 0 <= j < f.queue.len() && f.queue[j] == d;
                assert(rest[j - 1] == d);
            }
            assert forall|d: (u8, u8)| #[trigger] rest.contains(d) implies f.queue.contains(d) by {
                let j = choose|j: int| 0 <= j < rest.len() && rest[j] == d;
                assert(f.queue[j + 1] == d);
            }
            if walls[index_of(c)] || f.out.contains(c) {
                assert(g.queue == rest && g.out == f.out);
                assert forall|a: (u8, u8), b: (u8, u8)|
                    #![trigger g.out.contains(a), adjoin(tile_of(a), tile_of(b))]
                    g.out.contains(a) && adjoin(tile_of(a), tile_of(b)) && passable(
                        walls,
                        tile_of(b),
                    ) implies g.out.contains(b) || g.queue.contains(b) by {
                    if b == c {
                        assert(!walls[index_of(c)]);
                    }
                }
            } else {
                lemma_step_holds(walls, start, f, g, c, rest);
            }
        }
    }
}

proof fn lemma_step_holds(
    walls: Seq<bool>,
    start: (u8, u8),
    f: Flood,
    g: Flood,
    c: (u8, u8),
    rest: Seq<(u8, u8)>,
)
    requires
        walls.len() == TILES,
        flood_holds(walls, start, f),
        f.queue.len() > 0,
        c == f.queue[0],
        rest == f.queue.drop_first(),
        !walls[index_of(c)],
        !f.out.contains(c),
        g == (Flood { queue: rest + beside(c), out: f.out.push(c) }),
        forall|d: (u8, u8)| d != c && #[trigger] f.queue.contains(d) ==> rest.contains(d),
        forall|d: (u8, u8)| #[trigger] rest.contains(d) ==> f.queue.contains(d),
    ensures
        flood_holds(walls, start, g),
{
    let from = tile_of(start);
    assert(f.queue.contains(c));
    assert(c.0 < 50 && c.1 < 50);
    assert(passable(walls, tile_of(c)));
    assert(connects(walls, from, tile_of(c)));
    lemma_beside(c, c);
    assert forall|d: (u8, u8)| #[trigger] g.queue.contains(d) <==> rest.contains(d) || beside(
        c,
    ).contains(d) by {
        if g.queue.contains(d) {
            let j = choose|j: int| 0 <= j < g.queue.len() && g.queue[j] == d;
            if j < rest.len() {
                assert(rest[j] == d);
            } else {
                assert(beside(c)[j - rest.len()] == d);
            }
        }
        if rest.contains(d) {
            let j = choose|j: int| 0 <= j < rest.len() && rest[j] == d;
            assert(g.queue[j] == d);
        }
        if beside(c).contains(d) {
            let j = choose|j: int| 0 <= j < beside(c).len() && beside(c)[j] == d;
            assert(g.queue[rest.len() + j] == d);
        }
    }
    assert forall|d: (u8, u8)| #[trigger] g.out.contains(d) <==> f.out.contains(d) || d == c by {
        if g.out.contains(d) {
            let j = choose|j: int| 0 <= j < g.out.len() && g.out[j] == d;
            if j < f.out.len() {
                assert(f.out[j] == d);
            }
        }
        if f.out.contains(d) {
            let j = choose|j: int| 0 <= j < f.out.len() && f.out[j] == d;
            assert(g.out[j] == d);
        }
        assert(g.out[f.out.len() as int] == c);
    }
    assert forall|i: int| 0 <= i < g.queue.len() implies (#[trigger] g.queue[i]).0 < 50
        && g.queue[i].1 < 50 by {
        if i < rest.len() {
            assert(g.queue[i] == f.queue[i + 1]);
        } else {
            assert(g.queue[i] == beside(c)[i - rest.len()]);
        }
    }
    assert forall|d: (u8, u8)| #[trigger] g.queue.contains(d) && passable(
        walls,
        tile_of(d),
    ) implies connects(walls, from, tile_of(d)) by {
        if !rest.contains(d) {
            lemma_beside(c, d);
            lemma_walk_on(walls, from, tile_of(c), tile_of(d));
        }
    }
    assert forall|a: (u8, u8), b: (u8, u8)|
        #![trigger g.out.contains(a), adjoin(tile_of(a), tile_of(b))]
        g.out.contains(a) && adjoin(tile_of(a), tile_of(b)) && passable(
            walls,
            tile_of(b),
        ) implies g.out.contains(b) || g.queue.contains(b) by {
        if a == c {
            lemma_beside(c, b);
        } else {
            assert(f.out.contains(a));
            assert(f.out.contains(b) || f.queue.contains(b));
        }
    }
    assert(g.out.no_duplicates()) by {
        assert forall|i: int, j: int|
            0 <= i < g.out.len() && 0 <= j < g.out.len() && i != j implies g.out[i] != g.out[j] by {
            if i < f.out.len() && j < f.out.len() {
                assert(f.out[i] != f.out[j]);
            } else if i < f.out.len() {
                assert(f.out.contains(f.out[i]));
            } else {
                assert(f.out.contains(f.out[j]));
            }
        }
    }
}

/// The flood reaches exactly the tiles that a walk leads to, each once.
pub proof fn component_is_what_connects(
    walls: Seq<bool>,
    start: (u8, u8),
    tiles: Seq<(u8, u8)>,
    c: (u8, u8),
)
    requires
        walls.len() == TILES,
        passable(walls, tile_of(start)),
        is_component(walls, start, tiles),
    ensures
        tiles.no_duplicates(),
        tiles.contains(c) <==> connects(walls, tile_of(start), tile_of(c)),
{
    let from = tile_of(start);
    let n = choose|n: nat|
        (#[trigger] flood(walls, start, n)).queue.len() == 0 && tiles == flood(
            walls,
            start,
            n,
        ).out;
    let f = flood(walls, start, n);
    lemma_flood_holds(walls, start, n);
    if connects(walls, from, tile_of(c)) {
        let path = choose|path: Seq<(int, int)>|
            #[trigger] is_walk(walls, path) && path[0] == from && path.last() == tile_of(c);
        let seen = Seq::new(
            TILES as nat,
            |i: int| f.out.contains(((i % 50) as u8, (i / 50) as u8)),
        );
        assert forall|a: (u8, u8)| a.0 < 50 && a.1 < 50 implies #[trigger] seen[index_of(a)]
            == f.out.contains(a) by {
            let i = index_of(a);
            assert(i % 50 == a.0 && i / 50 == a.1);
        }
        assert(seen[index_of(start)]);
        assert forall|a: (int, int), b: (int, int)|
            #![trigger adjoin(a, b)]
            in_room(a.0, a.1) && seen[tile_index(a.0, a.1)] && adjoin(a, b) && passable(
                walls,
                b,
            ) implies seen[tile_index(b.0, b.1)] by {
            let u = (a.0 as u8, a.1 as u8);
            let v = (b.0 as u8, b.1 as u8);
            assert(tile_of(u) == a && tile_of(v) == b);
            assert(seen[index_of(u)]);
            assert(f.out.contains(u));
            assert(adjoin(tile_of(u), tile_of(v)));
            assert(f.out.contains(v));
            assert(seen[index_of(v)]);
        }
        lemma_walk_stays(walls, seen, path, path.len() - 1);
        assert(seen[index_of(c)]);
    }
}

/// The first open tile around the seed.
fn find_start(t: &CombatTerrain, seed: (u8, u8)) -> (r: (u8, u8))
    requires
        t@.wf(),
        seed.0 < 50,
        seed.1 < 50,
    ensures
        is_start(t@.walls, tile_of(seed), tile_of(r)),
        r.0 < 50,
        r.1 < 50,
{
    let ghost walls = t@.walls;
    let ghost s = tile_of(seed);
    let mut best: (u8, u8) = seed;
    let mut found: bool = false;
    let mut least: i32 = 0;
    let mut y: u8 = 0;
    while y < 50
        invariant
            y <= 50,
            t@.wf(),
            walls == t@.walls,
            s == tile_of(seed),
            seed.0 < 50,
            seed.1 < 50,
            best.0 < 50,
            best.1 < 50,
            !found ==> best == seed,
            found ==> passable(walls, tile_of(best)) && least == rings(s, tile_of(best)),
            forall|c: (int, int)|
                #[trigger] passable(walls, c) && c.1 < y ==> found && no_later(
                    s,
                    tile_of(best),
                    c,
                ),
            found ==> best.1 < y,
        decreases 50 - y,
    {
        let mut x: u8 = 0;
        while x < 50
            invariant
                x <= 50,
                y < 50,
                t@.wf(),
                walls == t@.walls,
                s == tile_of(seed),
                seed.0 < 50,
                seed.1 < 50,
                best.0 < 50,
                best.1 < 50,
                !found ==> best == seed,
                found ==> passable(walls, tile_of(best)) && least == rings(s, tile_of(best)),
                forall|c: (int, int)|
                    #[trigger] passable(walls, c) && (c.1 < y || c.1 == y && c.0 < x) ==> found
                        && no_later(s, tile_of(best), c),
                found ==> best.1 < y || best.1 == y && best.0 < x,
            decreases 50 - x,
        {
            if !t.is_wall(x, y) {
                let dx: i32 = x as i32 - seed.0 as i32;
                let dy: i32 = y as i32 - seed.1 as i32;
                let ax: i32 = if dx < 0 {
                    -dx
                } else {
                    dx
                };
                let ay: i32 = if dy < 0 {
                    -dy
                } else {
                    dy
                };
                let d: i32 = if ax >= ay {
                    ax
                } else {
                    ay
                };
                assert(d == rings(s, (x as int, y as int)));
                assert(passable(walls, (x as int, y as int)));
                if !found || d < least {
                    found = true;
                    least = d;
                    best = (x, y);
                }
            } else {
                assert(!passable(walls, (x as int, y as int)));
            }
            x = x + 1;
        }
        y = y + 1;
    }
    proof {
        if exists|c: (int, int)| #[trigger] passable(walls, c) {
            let c = choose|c: (int, int)| #[trigger] passable(walls, c);
            assert(c.1 < 50);
            assert(found);
        }
    }
    best
}

/// Where an open ground is flooded from.
pub open spec fn is_open_ground(walls: Seq<bool>, seed: (u8, u8), tiles: Seq<(u8, u8)>) -> bool {
    exists|start: (u8, u8)|
        is_start(walls, tile_of(seed), tile_of(start)) && #[trigger] is_component(
            walls,
            start,
            tiles,
        )
}

fn push_if(queue: &mut Vec<(u8, u8)>, cond: bool, c: (u8, u8))
    ensures
        final(queue)@ == old(queue)@ + kept_if(cond, c),
{
    if cond {
        queue.push(c);
    }
    assert(queue@ =~= old(queue)@ + kept_if(cond, c));
}

/// The tiles that can be walked to from the seed, or from the open tile nearest to it, in
/// the order in which a flood reaches them.
pub fn open_component(t: &CombatTerrain, seed: (u8, u8)) -> (r: Vec<(u8, u8)>)
    requires
        t@.wf(),
        seed.0 < 50,
        seed.1 < 50,
    ensures
        is_open_ground(t@.walls, seed, r@),
        in_bounds(r@),
{
    let ghost walls = t@.walls;
    let start: (u8, u8) = find_start(t, seed);
    let mut seen: Vec<bool> = no_flags(TILES);
    let mut out: Vec<(u8, u8)> = Vec::new();
    let mut queue: Vec<(u8, u8)> = Vec::new();
    queue.push(start);
    let mut head: usize = 0;
    let ghost mut n: nat = 0;
    assert(queue@.skip(0) =~= seq![start]);
    assert(out@ =~= seq![]);
    while head < queue.len()
        invariant
            head <= queue@.len(),
            t@.wf(),
            walls == t@.walls,
            start.0 < 50,
            start.1 < 50,
            seen@.len() == TILES,
            flood(walls, start, n) == (Flood { queue: queue@.skip(head as int), out: out@ }),
            in_bounds(queue@),
            forall|c: (u8, u8)|
                c.0 < 50 && c.1 < 50 ==> #[trigger] seen@[index_of(c)] == out@.contains(c),
        decreases TILES - count_true(seen@), queue@.len() - head,
    {
        let ghost f = flood(walls, start, n);
        let c: (u8, u8) = queue[head];
        head = head + 1;
        assert(f.queue[0] == c);
        assert(f.queue.drop_first() =~= queue@.skip(head as int));
        let i: usize = c.1 as usize * 50 + c.0 as usize;
        assert(i == index_of(c));
        if !t.is_wall(c.0, c.1) && !seen[i] {
            let ghost before = queue@;
            let ghost reached = out@;
            let ghost flags = seen@;
            proof {
                lemma_count_set(seen@, i as int, true);
                lemma_count_bound(seen@.update(i as int, true));
                lemma_beside(c, c);
            }
            seen.set(i, true);
            out.push(c);
            push_if(&mut queue, c.0 < 49, (if c.0 < 49 { c.0 + 1 } else { c.0 }, c.1));
            push_if(&mut queue, c.0 > 0, (if c.0 > 0 { c.0 - 1 } else { c.0 }, c.1));
            push_if(&mut queue, c.1 < 49, (c.0, if c.1 < 49 { c.1 + 1 } else { c.1 }));
            push_if(&mut queue, c.1 > 0, (c.0, if c.1 > 0 { c.1 - 1 } else { c.1 }));
            assert(queue@ =~= before + beside(c));
            assert(queue@.skip(head as int) =~= before.skip(head as int) + beside(c));
            assert forall|j: int| 0 <= j < queue@.len() implies (#[trigger] queue@[j]).0 < 50
                && queue@[j].1 < 50 by {
                if j >= before.len() {
                    assert(queue@[j] == beside(c)[j - before.len()]);
                }
            }
            assert forall|d: (u8, u8)| d.0 < 50 && d.1 < 50 implies #[trigger] seen@[index_of(d)]
                == out@.contains(d) by {
                if index_of(d) == i {
                    assert(d == c);
                    assert(out@[reached.len() as int] == c);
                } else {
                    assert(flags[index_of(d)] == reached.contains(d));
                    if reached.contains(d) {
                        let j = choose|j: int| 0 <= j < reached.len() && reached[j] == d;
                        assert(out@[j] == d);
                    }
                    if out@.contains(d) {
                        let j = choose|j: int| 0 <= j < out@.len() && out@[j] == d;
                        assert(reached[j] == d);
                    }
                }
            }
        }
        proof {
            n = n + 1;
            assert(flood(walls, start, n) == flood_step(walls, f));
        }
    }
    proof {
        lemma_flood_holds(walls, start, n);
        assert(flood(walls, start, n).queue.len() == 0);
        assert(is_component(walls, start, out@));
    }
    out
}

// ── The ground that a match is fought on ───────────────────────────────────

/// The first of the least measures.
pub open spec fn is_first_least(m: Seq<Option<i32>>, r: Option<usize>) -> bool {
    match r {
        None => forall|i: int| 0 <= i < m.len() ==> (#[trigger] m[i]) is None,
        Some(k) => {
            &&& k < m.len()
            &&& m[k as int] is Some
            &&& forall|i: int|
                0 <= i < m.len() ==> ((#[trigger] m[i]) matches Some(v) ==> m[k as int]->0 <= v)
            &&& forall|i: int|
                0 <= i < k ==> ((#[trigger] m[i]) matches Some(v) ==> m[k as int]->0 < v)
        },
    }
}

fn first_least(m: &Vec<Option<i32>>) -> (r: Option<usize>)
    ensures
        is_first_least(m@, r),
{
    let mut best: Option<usize> = None;
    let mut i: usize = 0;
    while i < m.len()
        invariant
            i <= m.len(),
            is_first_least(m@.take(i as int), best),
        decreases m.len() - i,
    {
        let ghost before = m@.take(i as int);
        let ghost now = m@.take(i + 1);
        assert(now[i as int] == m@[i as int]);
        assert(forall|j: int| 0 <= j < i ==> #[trigger] now[j] == before[j]);
        if let Some(v) = m[i] {
            match best {
                None => {
                    best = Some(i);
                },
                Some(k) => {
                    assert(before[k as int] == m@[k as int]);
                    if let Some(least) = m[k] {
                        if v < least {
                            best = Some(i);
                        }
                    }
                },
            }
        }
        i = i + 1;
    }
    assert(m@.take(i as int) =~= m@);
    best
}

/// The squared distance of a tile from a point.
pub open spec fn off(c: (u8, u8), x: int, y: int) -> int {
    (c.0 - x) * (c.0 - x) + (c.1 - y) * (c.1 - y)
}

fn distance_off(c: (u8, u8), x: i32, y: i32) -> (r: i32)
    requires
        0 <= x < 256,
        0 <= y < 256,
    ensures
        r == off(c, x as int, y as int),
{
    let dx: i32 = c.0 as i32 - x;
    let dy: i32 = c.1 as i32 - y;
    assert(0 <= dx * dx <= 65025) by (nonlinear_arith)
        requires
            -255 <= dx <= 255,
    ;
    assert(0 <= dy * dy <= 65025) by (nonlinear_arith)
        requires
            -255 <= dy <= 255,
    ;
    dx * dx + dy * dy
}

/// A tile of the ground where a core may stand.
pub open spec fn suits_core(c: (u8, u8)) -> bool {
    30 <= c.0 <= 40 && 20 <= c.1 <= 30
}

pub open spec fn core_measures(tiles: Seq<(u8, u8)>) -> Seq<Option<i32>> {
    Seq::new(
        tiles.len(),
        |i: int|
            if suits_core(tiles[i]) {
                Some(off(tiles[i], 34, 25) as i32)
            } else {
                None
            },
    )
}

/// The last of the easternmost tiles.
pub open spec fn is_easternmost(tiles: Seq<(u8, u8)>, k: int) -> bool {
    &&& 0 <= k < tiles.len()
    &&& forall|i: int| 0 <= i < tiles.len() ==> (#[trigger] tiles[i]).0 <= tiles[k].0
    &&& forall|i: int| k < i < tiles.len() ==> (#[trigger] tiles[i]).0 < tiles[k].0
}

/// Where the core stands: nearest to the middle of the east, else at its far end.
pub open spec fn is_core_tile(tiles: Seq<(u8, u8)>, core: (u8, u8)) -> bool {
    if tiles.len() == 0 {
        core == (34u8, 25u8)
    } else if exists|i: int| 0 <= i < tiles.len() && suits_core(#[trigger] tiles[i]) {
        exists|k: usize|
            #[trigger] is_first_least(core_measures(tiles), Some(k)) && core == tiles[k as int]
    } else {
        exists|k: int| #[trigger] is_easternmost(tiles, k) && core == tiles[k]
    }
}

fn easternmost(tiles: &Vec<(u8, u8)>) -> (r: usize)
    requires
        tiles@.len() > 0,
    ensures
        is_easternmost(tiles@, r as int),
{
    let mut best: usize = 0;
    let mut i: usize = 1;
    while i < tiles.len()
        invariant
            1 <= i <= tiles@.len(),
            best < i,
            forall|j: int| 0 <= j < i ==> (#[trigger] tiles@[j]).0 <= tiles@[best as int].0,
            forall|j: int| best < j < i ==> (#[trigger] tiles@[j]).0 < tiles@[best as int].0,
        decreases tiles.len() - i,
    {
        if tiles[i].0 >= tiles[best].0 {
            best = i;
        }
        i = i + 1;
    }
    best
}

/// Chooses the tile of the core.
pub fn core_tile(tiles: &Vec<(u8, u8)>) -> (core: (u8, u8))
    requires
        in_bounds(tiles@),
    ensures
        is_core_tile(tiles@, core),
        core.0 < 50,
        core.1 < 50,
{
    if tiles.len() == 0 {
        return (34, 25);
    }
    let ghost want = core_measures(tiles@);
    let mut m: Vec<Option<i32>> = Vec::new();
    let mut i: usize = 0;
    while i < tiles.len()
        invariant
            i <= tiles@.len(),
            want == core_measures(tiles@),
            m@ == want.take(i as int),
        decreases tiles.len() - i,
    {
        let c: (u8, u8) = tiles[i];
        if 30 <= c.0 && c.0 <= 40 && 20 <= c.1 && c.1 <= 30 {
            m.push(Some(distance_off(c, 34, 25)));
        } else {
            m.push(None);
        }
        assert(m@ =~= want.take(i + 1));
        i = i + 1;
    }
    assert(m@ =~= want);
    match first_least(&m) {
        Some(k) => {
            assert(want[k as int] is Some);
            assert(suits_core(tiles@[k as int]));
            tiles[k]
        },
        None => {
            assert forall|i: int| 0 <= i < tiles@.len() implies !suits_core(#[trigger] tiles@[i]) by {
                assert(want[i] is None);
            }
            let k: usize = easternmost(tiles);
            assert(is_easternmost(tiles@, k as int));
            tiles[k]
        },
    }
}

/// A tile of the rows that the attackers come in on.
pub open spec fn suits_entry(c: (u8, u8)) -> bool {
    18 <= c.1 <= 32
}

pub open spec fn entry_measures(tiles: Seq<(u8, u8)>, any_row: bool) -> Seq<Option<i32>> {
    Seq::new(
        tiles.len(),
        |i: int|
            if any_row || suits_entry(tiles[i]) {
                Some(tiles[i].0 as i32)
            } else {
                None
            },
    )
}

/// No tile lies on those rows.
pub open spec fn no_middle(tiles: Seq<(u8, u8)>) -> bool {
    forall|i: int| 0 <= i < tiles.len() ==> !suits_entry(#[trigger] tiles[i])
}

/// Where the attackers start: the first of the westernmost tiles, on the middle rows if
/// these have one.
pub open spec fn is_entry_tile(tiles: Seq<(u8, u8)>, entry: (u8, u8)) -> bool {
    if tiles.len() == 0 {
        entry == (6u8, 25u8)
    } else {
        exists|k: usize|
            #[trigger] is_first_least(entry_measures(tiles, no_middle(tiles)), Some(k)) && entry
                == tiles[k as int]
    }
}

fn measure_entries(tiles: &Vec<(u8, u8)>, any_row: bool) -> (m: Vec<Option<i32>>)
    ensures
        m@ == entry_measures(tiles@, any_row),
{
    let ghost want = entry_measures(tiles@, any_row);
    let mut m: Vec<Option<i32>> = Vec::new();
    let mut i: usize = 0;
    while i < tiles.len()
        invariant
            i <= tiles@.len(),
            want == entry_measures(tiles@, any_row),
            m@ == want.take(i as int),
        decreases tiles.len() - i,
    {
        let c: (u8, u8) = tiles[i];
        if any_row || (18 <= c.1 && c.1 <= 32) {
            m.push(Some(c.0 as i32));
        } else {
            m.push(None);
        }
        assert(m@ =~= want.take(i + 1));
        i = i + 1;
    }
    assert(m@ =~= want);
    m
}

/// Chooses the tile of the entry.
pub fn entry_tile(tiles: &Vec<(u8, u8)>) -> (entry: (u8, u8))
    requires
        in_bounds(tiles@),
    ensures
        is_entry_tile(tiles@, entry),
        entry.0 < 50,
        entry.1 < 50,
{
    if tiles.len() == 0 {
        return (6, 25);
    }
    let m: Vec<Option<i32>> = measure_entries(tiles, false);
    match first_least(&m) {
        Some(k) => {
            assert(m@[k as int] is Some);
            assert(suits_entry(tiles@[k as int]));
            assert(!no_middle(tiles@));
            tiles[k]
        },
        None => {
            assert forall|i: int| 0 <= i < tiles@.len() implies !suits_entry(
                #[trigger] tiles@[i],
            ) by {
                assert(m@[i] is None);
            }
            let any: Vec<Option<i32>> = measure_entries(tiles, true);
            match first_least(&any) {
                Some(k) => {
                    assert(no_middle(tiles@));
                    tiles[k]
                },
                None => {
                    assert(any@[0] is Some);
                    (6, 25)
                },
            }
        },
    }
}

/// The tiles around a tile, column by column.
pub open spec fn ring(c: (u8, u8)) -> Seq<(int, int)> {
    let (x, y) = tile_of(c);
    seq![
        (x - 1, y - 1),
        (x - 1, y),
        (x - 1, y + 1),
        (x, y - 1),
        (x, y + 1),
        (x + 1, y - 1),
        (x + 1, y),
        (x + 1, y + 1),
    ]
}

/// Which of the tiles around one are taken: those of the ground, no further east than
/// `east`, and not barred.
pub open spec fn fit_for(
    tiles: Seq<(u8, u8)>,
    east: int,
    barred: Seq<(u8, u8)>,
) -> spec_fn((int, int)) -> bool {
    |c: (int, int)|
        in_room(c.0, c.1) && c.0 <= east && tiles.contains((c.0 as u8, c.1 as u8))
            && !barred.contains((c.0 as u8, c.1 as u8))
}

pub open spec fn to_tiles(s: Seq<(int, int)>) -> Seq<(u8, u8)> {
    Seq::new(s.len(), |i: int| (s[i].0 as u8, s[i].1 as u8))
}

/// The fit tiles around a tile, at most four.
pub open spec fn stand_around(
    tiles: Seq<(u8, u8)>,
    c: (u8, u8),
    east: int,
    barred: Seq<(u8, u8)>,
) -> Seq<(u8, u8)> {
    let all = ring(c).filter(fit_for(tiles, east, barred));
    to_tiles(
        if all.len() > 4 {
            all.take(4)
        } else {
            all
        },
    )
}

/// Where the attackers stand at the core: west of it if there is room, else around it,
/// else on it.
pub open spec fn front_of(tiles: Seq<(u8, u8)>, core: (u8, u8)) -> Seq<(u8, u8)> {
    let west = stand_around(tiles, core, core.0 as int, seq![]);
    let any = stand_around(tiles, core, 49, seq![]);
    if west.len() > 0 {
        west
    } else if any.len() > 0 {
        any
    } else {
        seq![core]
    }
}

/// Where the healers stand: around the first of the front.
pub open spec fn support_of(tiles: Seq<(u8, u8)>, core: (u8, u8)) -> Seq<(u8, u8)> {
    let front = front_of(tiles, core);
    stand_around(tiles, front[0], 49, front.push(core))
}

fn lists_tile(v: &Vec<(u8, u8)>, c: (u8, u8)) -> (r: bool)
    ensures
        r == v@.contains(c),
{
    let mut i: usize = 0;
    while i < v.len()
        invariant
            i <= v@.len(),
            forall|j: int| 0 <= j < i ==> #[trigger] v@[j] != c,
        decreases v.len() - i,
    {
        if v[i].0 == c.0 && v[i].1 == c.1 {
            assert(v@[i as int] == c);
            return true;
        }
        i = i + 1;
    }
    false
}

fn around(tiles: &Vec<(u8, u8)>, c: (u8, u8), east: u8, barred: &Vec<(u8, u8)>) -> (r: Vec<
    (u8, u8),
>)
    requires
        c.0 < 50,
        c.1 < 50,
    ensures
        r@ == stand_around(tiles@, c, east as int, barred@),
        in_bounds(r@),
{
    let ghost p = fit_for(tiles@, east as int, barred@);
    let ghost all = ring(c);
    let (x, y): (i32, i32) = (c.0 as i32, c.1 as i32);
    let order: [(i32, i32); 8] = [
        (x - 1, y - 1),
        (x - 1, y),
        (x - 1, y + 1),
        (x, y - 1),
        (x, y + 1),
        (x + 1, y - 1),
        (x + 1, y),
        (x + 1, y + 1),
    ];
    let mut out: Vec<(u8, u8)> = Vec::new();
    let ghost mut held: Seq<(int, int)> = seq![];
    let mut i: usize = 0;
    assert(all.take(0).filter(p) =~= seq![]) by {
        reveal(Seq::filter);
    }
    while i < 8
        invariant
            i <= 8,
            all == ring(c),
            all.len() == 8,
            p == fit_for(tiles@, east as int, barred@),
            forall|k: int|
                0 <= k < 8 ==> (#[trigger] order@[k]).0 == all[k].0 && order@[k].1 == all[k].1,
            held == all.take(i as int).filter(p),
            out@ == to_tiles(if held.len() > 4 {
                held.take(4)
            } else {
                held
            }),
            in_bounds(out@),
        decreases 8 - i,
    {
        proof {
            lemma_filter_take(all, p, i as int);
        }
        let (nx, ny): (i32, i32) = order[i];
        assert(nx == all[i as int].0 && ny == all[i as int].1);
        let ghost before = held;
        let fit: bool = if 0 <= nx && nx < 50 && 0 <= ny && ny < 50 {
            let d: (u8, u8) = (nx as u8, ny as u8);
            nx <= east as i32 && lists_tile(tiles, d) && !lists_tile(barred, d)
        } else {
            false
        };
        assert(fit == p(all[i as int]));
        proof {
            held = all.take(i + 1).filter(p);
        }
        if fit {
            if out.len() < 4 {
                out.push((nx as u8, ny as u8));
            } else {
                assert(held.take(4) =~= before.take(4));
            }
        }
        assert(out@ =~= to_tiles(if held.len() > 4 {
            held.take(4)
        } else {
            held
        }));
        i = i + 1;
    }
    assert(all.take(8) =~= all);
    out
}

/// Chooses where the attackers stand at the core.
pub fn front_tiles(tiles: &Vec<(u8, u8)>, core: (u8, u8)) -> (r: Vec<(u8, u8)>)
    requires
        core.0 < 50,
        core.1 < 50,
    ensures
        r@ == front_of(tiles@, core),
        r@.len() > 0,
        in_bounds(r@),
{
    let none: Vec<(u8, u8)> = Vec::new();
    assert(none@ =~= seq![]);
    let west: Vec<(u8, u8)> = around(tiles, core, core.0, &none);
    if west.len() > 0 {
        return west;
    }
    let any: Vec<(u8, u8)> = around(tiles, core, 49, &none);
    if any.len() > 0 {
        return any;
    }
    let mut one: Vec<(u8, u8)> = Vec::new();
    one.push(core);
    assert(one@ =~= seq![core]);
    one
}

/// Chooses where the healers stand.
pub fn support_tiles(tiles: &Vec<(u8, u8)>, core: (u8, u8)) -> (r: Vec<(u8, u8)>)
    requires
        core.0 < 50,
        core.1 < 50,
    ensures
        r@ == support_of(tiles@, core),
        in_bounds(r@),
{
    let mut barred: Vec<(u8, u8)> = front_tiles(tiles, core);
    let first: (u8, u8) = barred[0];
    barred.push(core);
    around(tiles, first, 49, &barred)
}

/// The first tile of the ground three to six rings from the core.
pub open spec fn is_tower_tile(
    tiles: Seq<(u8, u8)>,
    core: (u8, u8),
    r: Option<(u8, u8)>,
) -> bool {
    let suits = |c: (u8, u8)| 3 <= rings(tile_of(core), tile_of(c)) <= 6;
    match r {
        None => forall|i: int| 0 <= i < tiles.len() ==> !suits(#[trigger] tiles[i]),
        Some(c) => exists|k: int|
            0 <= k < tiles.len() && #[trigger] tiles[k] == c && suits(c) && forall|i: int|
                0 <= i < k ==> !suits(#[trigger] tiles[i]),
    }
}

fn rings_off(a: (u8, u8), b: (u8, u8)) -> (r: i32)
    ensures
        r == rings(tile_of(a), tile_of(b)),
{
    let dx: i32 = a.0 as i32 - b.0 as i32;
    let dy: i32 = a.1 as i32 - b.1 as i32;
    let ax: i32 = if dx < 0 {
        -dx
    } else {
        dx
    };
    let ay: i32 = if dy < 0 {
        -dy
    } else {
        dy
    };
    if ax >= ay {
        ax
    } else {
        ay
    }
}

/// Chooses where a tower covers the core.
pub fn tower_tile(tiles: &Vec<(u8, u8)>, core: (u8, u8)) -> (r: Option<(u8, u8)>)
    ensures
        is_tower_tile(tiles@, core, r),
{
    let mut i: usize = 0;
    while i < tiles.len()
        invariant
            i <= tiles@.len(),
            forall|j: int|
                0 <= j < i ==> !(3 <= rings(tile_of(core), tile_of(#[trigger] tiles@[j])) <= 6),
        decreases tiles.len() - i,
    {
        let d: i32 = rings_off(core, tiles[i]);
        if 3 <= d && d <= 6 {
            assert(tiles@[i as int] == tiles@[i as int]);
            return Some(tiles[i]);
        }
        i = i + 1;
    }
    None
}

/// A tile where a defender may stand.
pub open spec fn holds(core: (u8, u8), front: Seq<(u8, u8)>) -> spec_fn((u8, u8)) -> bool {
    |c: (u8, u8)| c != core && !front.contains(c) && c.0 + 2 >= core.0
}

pub open spec fn offs(tiles: Seq<(u8, u8)>, core: (u8, u8)) -> Seq<Option<i32>> {
    Seq::new(tiles.len(), |i: int| Some(off(tiles[i], core.0 as int, core.1 as int) as i32))
}

/// `out` takes the nearest tiles of `left` one after another, the first of equals.
pub open spec fn is_nearest_first(
    left: Seq<(u8, u8)>,
    core: (u8, u8),
    n: nat,
    out: Seq<(u8, u8)>,
) -> bool
    decreases n,
{
    if n == 0 || left.len() == 0 {
        out.len() == 0
    } else {
        out.len() > 0 && exists|k: usize|
            #[trigger] is_first_least(offs(left, core), Some(k)) && out[0] == left[k as int]
                && is_nearest_first(left.remove(k as int), core, (n - 1) as nat, out.drop_first())
    }
}

/// Where `n` defenders stand: around the core, the nearest tiles first.
pub open spec fn is_garrison_ground(
    tiles: Seq<(u8, u8)>,
    core: (u8, u8),
    n: nat,
    out: Seq<(u8, u8)>,
) -> bool {
    is_nearest_first(tiles.filter(holds(core, front_of(tiles, core))), core, n, out)
}

fn measure_offs(tiles: &Vec<(u8, u8)>, core: (u8, u8)) -> (m: Vec<Option<i32>>)
    ensures
        m@ == offs(tiles@, core),
{
    let ghost want = offs(tiles@, core);
    let mut m: Vec<Option<i32>> = Vec::new();
    let mut i: usize = 0;
    while i < tiles.len()
        invariant
            i <= tiles@.len(),
            want == offs(tiles@, core),
            m@ == want.take(i as int),
        decreases tiles.len() - i,
    {
        m.push(Some(distance_off(tiles[i], core.0 as i32, core.1 as i32)));
        assert(m@ =~= want.take(i + 1));
        i = i + 1;
    }
    assert(m@ =~= want);
    m
}

fn nearest_first(left: Vec<(u8, u8)>, core: (u8, u8), n: usize) -> (out: Vec<(u8, u8)>)
    ensures
        is_nearest_first(left@, core, n as nat, out@),
        forall|i: int| 0 <= i < out@.len() ==> left@.contains(#[trigger] out@[i]),
    decreases n,
{
    let mut out: Vec<(u8, u8)> = Vec::new();
    if n == 0 || left.len() == 0 {
        return out;
    }
    let mut left: Vec<(u8, u8)> = left;
    let ghost before = left@;
    let m: Vec<Option<i32>> = measure_offs(&left, core);
    match first_least(&m) {
        Some(k) => {
            let c: (u8, u8) = left.remove(k);
            let ghost rest = left@;
            assert(rest == before.remove(k as int));
            let mut more: Vec<(u8, u8)> = nearest_first(left, core, n - 1);
            let ghost tail = more@;
            out.push(c);
            out.append(&mut more);
            assert(out@ =~= seq![c] + tail);
            assert(out@.drop_first() =~= tail);
            assert(is_first_least(offs(before, core), Some(k)));
            assert forall|i: int| 0 <= i < out@.len() implies before.contains(
                #[trigger] out@[i],
            ) by {
                if i == 0 {
                    assert(before[k as int] == c);
                } else {
                    assert(rest.contains(tail[i - 1]));
                    let j = choose|j: int| 0 <= j < rest.len() && rest[j] == tail[i - 1];
                    if j < k {
                        assert(before[j] == rest[j]);
                    } else {
                        assert(before[j + 1] == rest[j]);
                    }
                }
            }
        },
        None => {
            assert(m@[0] is None);
        },
    }
    out
}

/// Chooses where `n` defenders stand.
pub fn garrison_tiles(tiles: &Vec<(u8, u8)>, core: (u8, u8), n: usize) -> (r: Vec<(u8, u8)>)
    requires
        core.0 < 50,
        core.1 < 50,
        in_bounds(tiles@),
    ensures
        is_garrison_ground(tiles@, core, n as nat, r@),
        in_bounds(r@),
{
    let front: Vec<(u8, u8)> = front_tiles(tiles, core);
    let ghost p = holds(core, front@);
    let mut left: Vec<(u8, u8)> = Vec::new();
    let mut i: usize = 0;
    assert(tiles@.take(0).filter(p) =~= seq![]) by {
        reveal(Seq::filter);
    }
    while i < tiles.len()
        invariant
            i <= tiles@.len(),
            core.0 < 50,
            in_bounds(tiles@),
            p == holds(core, front@),
            left@ == tiles@.take(i as int).filter(p),
            in_bounds(left@),
        decreases tiles.len() - i,
    {
        proof {
            lemma_filter_take(tiles@, p, i as int);
        }
        let c: (u8, u8) = tiles[i];
        if !(c.0 == core.0 && c.1 == core.1) && !lists_tile(&front, c) && c.0 + 2 >= core.0 {
            left.push(c);
        }
        i = i + 1;
    }
    assert(tiles@.take(i as int) =~= tiles@);
    let ghost all = left@;
    let r: Vec<(u8, u8)> = nearest_first(left, core, n);
    assert forall|i: int| 0 <= i < r@.len() implies (#[trigger] r@[i]).0 < 50 && r@[i].1 < 50 by {
        assert(all.contains(r@[i]));
    }
    r
}

// ── The matches ────────────────────────────────────────────────────────────

/// What the attackers of a match are after.
#[derive(Clone, Copy, Debug, PartialEq, Eq, Structural)]
pub enum Aim {
    /// Wipe out the defenders.
    Clear,
    /// Raze the core that they hold.
    Core,
    /// Raze a core behind a rampart and a tower.
    ToweredCore,
}

pub open spec fn tag_of(a: Aim) -> Seq<char> {
    match a {
        Aim::Clear => "open-clear"@,
        Aim::Core => "raze-core"@,
        Aim::ToweredCore => "towered-core"@,
    }
}

pub open spec fn aim_of(k: int) -> Aim {
    if k == 0 {
        Aim::Clear
    } else if k == 1 {
        Aim::Core
    } else {
        Aim::ToweredCore
    }
}

impl Aim {
    pub fn tag(self) -> (r: &'static str)
        ensures
            r@ == tag_of(self),
    {
        match self {
            Aim::Clear => "open-clear",
            Aim::Core => "raze-core",
            Aim::ToweredCore => "towered-core",
        }
    }
}

/// A way to draw a roster: what a member costs, how many there are, and what sets the
/// draw apart.
#[derive(Clone, Copy, Debug)]
pub struct Flavour {
    pub name: &'static str,
    pub energy: u32,
    pub size: u8,
    pub salt: u32,
}

pub const FLAVOURS: usize = 6;

pub open spec fn flavour_name(i: int) -> Seq<char> {
    if i == 0 {
        "ranged-heavy"@
    } else if i == 1 {
        "melee+heal"@
    } else if i == 2 {
        "mixed"@
    } else if i == 3 {
        "lean-drain"@
    } else if i == 4 {
        "big-brawl"@
    } else {
        "small-skirmish"@
    }
}

/// The energy, the size and the salt of a flavour.
pub open spec fn flavour_numbers(i: int) -> (u32, u8, u32) {
    if i == 0 {
        (12_900, 4, 11)
    } else if i == 1 {
        (8_400, 4, 23)
    } else if i == 2 {
        (5_600, 3, 37)
    } else if i == 3 {
        (2_300, 2, 53)
    } else if i == 4 {
        (12_900, 5, 71)
    } else {
        (3_400, 3, 97)
    }
}

/// The flavour at an index.
pub fn flavour(i: usize) -> (f: Flavour)
    requires
        i < FLAVOURS,
    ensures
        f.name@ == flavour_name(i as int),
        (f.energy, f.size, f.salt) == flavour_numbers(i as int),
{
    if i == 0 {
        Flavour { name: "ranged-heavy", energy: 12_900, size: 4, salt: 11 }
    } else if i == 1 {
        Flavour { name: "melee+heal", energy: 8_400, size: 4, salt: 23 }
    } else if i == 2 {
        Flavour { name: "mixed", energy: 5_600, size: 3, salt: 37 }
    } else if i == 3 {
        Flavour { name: "lean-drain", energy: 2_300, size: 2, salt: 53 }
    } else if i == 4 {
        Flavour { name: "big-brawl", energy: 12_900, size: 5, salt: 71 }
    } else {
        Flavour { name: "small-skirmish", energy: 3_400, size: 3, salt: 97 }
    }
}

/// The seed of a roster's draw.
pub open spec fn roster_seed(seed: u32, salt: u32) -> u32 {
    ((seed * 131 + salt) % 0x1_0000_0000) as u32
}

/// The roster that a flavour draws for a match.
pub open spec fn flavour_roster(i: int, seed: u32) -> Seq<Seq<Part>> {
    let (energy, size, salt) = flavour_numbers(i);
    drawn_squad(seed_state(roster_seed(seed, salt)), energy, size as nat).0
}

impl Flavour {
    /// Draws the roster of a match.
    pub fn roster(&self, seed: u32) -> (r: Vec<Vec<Part>>)
        ensures
            bodies_of(r@) == drawn_squad(
                seed_state(roster_seed(seed, self.salt)),
                self.energy,
                self.size as nat,
            ).0,
            r@.len() == self.size,
    {
        let mixed: u32 = seed.wrapping_mul(131).wrapping_add(self.salt);
        assert(mixed == roster_seed(seed, self.salt)) by {
            let product = seed * 131;
            let whole = 0x1_0000_0000int;
            assert((product % whole + self.salt) % whole == (product + self.salt) % whole) by {
                vstd::arithmetic::div_mod::lemma_add_mod_noop(product, self.salt as int, whole);
                vstd::arithmetic::div_mod::lemma_small_mod(
                    self.salt as nat,
                    0x1_0000_0000nat,
                );
            }
        }
        sample_squad(mixed, self.energy, self.size)
    }
}

/// One match of the corpus: which room it is fought in, what for, and who fights.
#[derive(Clone, Copy, Debug, PartialEq, Eq, Structural)]
pub struct Case {
    pub seed: u32,
    /// The room, counted among the fixtures.
    pub fixture: usize,
    pub aim: Aim,
    /// The flavours of the two sides.
    pub attacker: usize,
    pub defender: usize,
}

/// The most matches of a corpus.
pub const MOST_CASES: usize = 36;

/// Half of `n`, rounded up.
pub open spec fn half_up(n: int) -> int {
    n / 2 + n % 2
}

/// How many rooms of `n` are visited: every second, then every fourth of the others.
pub open spec fn visits(n: int) -> int {
    if n == 0 {
        0
    } else {
        half_up(n) + (n - 1) / 4 + if (n - 1) % 4 > 0 {
            1int
        } else {
            0int
        }
    }
}

/// The room of a visit.
pub open spec fn visited(n: int, v: int) -> int {
    if v < half_up(n) {
        2 * v
    } else {
        1 + 4 * (v - half_up(n))
    }
}

/// The match at an index: each room is fought over three times, and the flavours take
/// turns.
pub open spec fn case_at(n: int, k: int) -> Case {
    let room = visited(n, k / 3);
    let turn = k / 3 + k % 3;
    Case {
        seed: k as u32,
        fixture: room as usize,
        aim: aim_of(k % 3),
        attacker: (turn % 6) as usize,
        defender: ((turn + 1 + room % 3) % 6) as usize,
    }
}

/// The corpus over `n` rooms.
pub open spec fn corpus_over(n: int) -> Seq<Case> {
    let all = 3 * visits(n);
    Seq::new(
        (if all <= MOST_CASES {
            all
        } else {
            MOST_CASES as int
        }) as nat,
        |k: int| case_at(n, k),
    )
}

/// A match is fought in a room that there is, between flavours that there are.
pub proof fn cases_are_in_reach(n: int, k: int)
    requires
        0 <= n,
        0 <= k < corpus_over(n).len(),
    ensures
        0 <= visited(n, k / 3) < n,
        corpus_over(n)[k].attacker < FLAVOURS,
        corpus_over(n)[k].defender < FLAVOURS,
{
    assert(k / 3 < visits(n));
}

/// The matches over `n` rooms.
pub fn cases(n: usize) -> (r: Vec<Case>)
    ensures
        r@ == corpus_over(n as int),
{
    let ghost want = corpus_over(n as int);
    let mut out: Vec<Case> = Vec::new();
    if n == 0 {
        assert(out@ =~= want);
        return out;
    }
    let half: usize = n / 2 + n % 2;
    let more: usize = (n - 1) / 4 + if (n - 1) % 4 > 0 {
        1usize
    } else {
        0usize
    };
    assert(half + more <= n);
    let total: usize = half + more;
    let mut k: usize = 0;
    while k < MOST_CASES && k / 3 < total
        invariant
            k <= MOST_CASES,
            0 < n,
            half == half_up(n as int),
            total == visits(n as int),
            k <= 3 * total,
            want == corpus_over(n as int),
            out@ == want.take(k as int),
        decreases MOST_CASES - k,
    {
        proof {
            cases_are_in_reach(n as int, k as int);
        }
        let v: usize = k / 3;
        let room: usize = if v < half {
            2 * v
        } else {
            1 + 4 * (v - half)
        };
        let turn: usize = v + k % 3;
        let aim: Aim = if k % 3 == 0 {
            Aim::Clear
        } else if k % 3 == 1 {
            Aim::Core
        } else {
            Aim::ToweredCore
        };
        out.push(
            Case {
                seed: k as u32,
                fixture: room,
                aim,
                attacker: turn % 6,
                defender: (turn + 1 + room % 3) % 6,
            },
        );
        assert(out@ =~= want.take(k + 1));
        k = k + 1;
    }
    assert(out@ =~= want);
    out
}

// ── Names ──────────────────────────────────────────────────────────────────

/// A letter or a digit of the ASCII alphabet.
pub open spec fn is_word(c: char) -> bool {
    ('a' <= c && c <= 'z') || ('A' <= c && c <= 'Z') || ('0' <= c && c <= '9')
}

/// The words of a text in lower case with a dash between them, and whether something
/// stands after the last word.
pub open spec fn slugged(s: Seq<char>) -> (Seq<char>, bool)
    decreases s.len(),
{
    if s.len() == 0 {
        (seq![], false)
    } else {
        let (t, apart) = slugged(s.drop_last());
        if is_word(s.last()) {
            (
                (if apart && t.len() > 0 {
                    t.push('-')
                } else {
                    t
                }).push(lower(s.last())),
                false,
            )
        } else {
            (t, true)
        }
    }
}

/// Lower-case letters, digits, and single dashes between them.
pub open spec fn is_file_safe(t: Seq<char>) -> bool {
    &&& forall|i: int|
        0 <= i < t.len() ==> ('a' <= (#[trigger] t[i]) && t[i] <= 'z') || ('0' <= t[i] && t[i]
            <= '9') || (t[i] == '-' && 0 < i && i + 1 < t.len() && t[i - 1] != '-')
}

/// A slug can be a file's name.
pub proof fn slug_is_file_safe(s: Seq<char>)
    ensures
        is_file_safe(slugged(s).0),
        slugged(s).0.len() > 0 ==> slugged(s).0.last() != '-',
    decreases s.len(),
{
    if s.len() > 0 {
        slug_is_file_safe(s.drop_last());
        let (t, apart) = slugged(s.drop_last());
        let r = slugged(s).0;
        if is_word(s.last()) {
            let base = if apart && t.len() > 0 {
                t.push('-')
            } else {
                t
            };
            assert(r == base.push(lower(s.last())));
            assert forall|i: int| 0 <= i < r.len() implies ('a' <= (#[trigger] r[i]) && r[i]
                <= 'z') || ('0' <= r[i] && r[i] <= '9') || (r[i] == '-' && 0 < i && i + 1 < r.len()
                && r[i - 1] != '-') by {
                if i < t.len() {
                    assert(r[i] == t[i]);
                    if i > 0 {
                        assert(r[i - 1] == t[i - 1]);
                    }
                }
            }
        }
    }
}

fn lowered(c: char) -> (r: char)
    ensures
        r == lower(c),
{
    if 'A' <= c && c <= 'Z' {
        (c as u8 + 32) as char
    } else {
        c
    }
}

/// Appends the slug of a text.
fn push_slug(out: &mut String, s: &str)
    ensures
        final(out)@ == old(out)@ + slugged(s@).0,
{
    let ghost before = out@;
    let n: usize = s.unicode_len();
    let mut apart: bool = false;
    let mut begun: bool = false;
    let mut i: usize = 0;
    assert(s@.take(0) =~= seq![]);
    assert(out@ =~= before + slugged(s@.take(0)).0);
    while i < n
        invariant
            i <= n == s@.len(),
            out@ == before + slugged(s@.take(i as int)).0,
            apart == slugged(s@.take(i as int)).1,
            begun == (slugged(s@.take(i as int)).0.len() > 0),
        decreases n - i,
    {
        let c: char = s.get_char(i);
        let ghost done = slugged(s@.take(i as int)).0;
        assert(s@.take(i + 1).drop_last() =~= s@.take(i as int));
        assert(s@.take(i + 1).last() == c);
        if ('a' <= c && c <= 'z') || ('A' <= c && c <= 'Z') || ('0' <= c && c <= '9') {
            if apart && begun {
                out.push('-');
            }
            out.push(lowered(c));
            apart = false;
            begun = true;
        } else {
            apart = true;
        }
        i = i + 1;
        assert(out@ =~= before + slugged(s@.take(i as int)).0);
    }
    assert(s@.take(n as int) =~= s@);
}

/// What the file of a match is named after.
pub open spec fn case_words(room: Seq<char>, c: Case) -> Seq<char> {
    room + "-"@ + flavour_name(c.attacker as int) + "-"@ + tag_of(c.aim) + "-"@ + flavour_name(
        c.defender as int,
    )
}

/// The name of a match's file.
pub open spec fn case_file(room: Seq<char>, c: Case) -> Seq<char> {
    (if c.seed < 10 {
        "0"@
    } else {
        ""@
    }) + decimal(c.seed as nat) + "_selfplay_"@ + slugged(case_words(room, c)).0
}

/// The title of a match.
pub open spec fn case_label(room: Seq<char>, c: Case) -> Seq<char> {
    "self-play "@ + room + " | "@ + flavour_name(c.attacker as int) + " ["@ + tag_of(c.aim)
        + "] vs "@ + flavour_name(c.defender as int) + " [hold]"@
}

impl Case {
    pub open spec fn wf(self) -> bool {
        self.attacker < FLAVOURS && self.defender < FLAVOURS
    }

    /// The name of the match's file.
    pub fn file(&self, room: &str) -> (r: String)
        requires
            self.wf(),
        ensures
            r@ == case_file(room@, *self),
    {
        let mut words: String = String::from_str(room);
        words.append("-");
        words.append(flavour(self.attacker).name);
        words.append("-");
        words.append(self.aim.tag());
        words.append("-");
        words.append(flavour(self.defender).name);
        assert(words@ =~= case_words(room@, *self));
        let mut out: String = String::from_str(if self.seed < 10 {
            "0"
        } else {
            ""
        });
        push_decimal(&mut out, self.seed as u64);
        out.append("_selfplay_");
        push_slug(&mut out, words.as_str());
        assert(out@ =~= case_file(room@, *self));
        out
    }

    /// The title of the match.
    pub fn label(&self, room: &str) -> (r: String)
        requires
            self.wf(),
        ensures
            r@ == case_label(room@, *self),
    {
        let mut out: String = String::from_str("self-play ");
        out.append(room);
        out.append(" | ");
        out.append(flavour(self.attacker).name);
        out.append(" [");
        out.append(self.aim.tag());
        out.append("] vs ");
        out.append(flavour(self.defender).name);
        out.append(" [hold]");
        assert(out@ =~= case_label(room@, *self));
        out
    }
}

// ── Assembling a match ─────────────────────────────────────────────────────

/// A match that can be fought.
#[derive(Debug)]
pub struct Match {
    pub terrain: CombatTerrain,
    pub scenario: Scenario,
    /// The defenders' bodies, and where those that find a tile stand.
    pub defenders: Vec<Vec<Part>>,
    pub garrison: Vec<Placed>,
    pub attackers: Vec<Vec<Part>>,
}

pub open spec fn laid_in(room: (i32, i32), tiles: Seq<(u8, u8)>) -> Seq<WPos> {
    Seq::new(tiles.len(), |i: int| tile_in(room, tiles[i].0 as int, tiles[i].1 as int))
}

/// The tile west of the core.
pub open spec fn gate_tile(core: (u8, u8)) -> (u8, u8) {
    (
        if core.0 > 0 {
            (core.0 - 1) as u8
        } else {
            0u8
        },
        core.1,
    )
}

pub open spec fn is_gated(aim: Aim, tiles: Seq<(u8, u8)>, core: (u8, u8)) -> bool {
    aim is ToweredCore && tiles.contains(gate_tile(core))
}

pub open spec fn held_structure(
    id: u32,
    kind: StructureKind,
    pos: WPos,
    hits: u32,
) -> SimStructure {
    SimStructure { id, kind, owner: Some(DEFENDER), pos, hits, hits_max: hits }
}

/// The structures of a match: the core, and a rampart before it where there is ground.
pub open spec fn match_structures(
    aim: Aim,
    room: (i32, i32),
    tiles: Seq<(u8, u8)>,
    core: (u8, u8),
) -> Seq<SimStructure> {
    let hits = if aim is Clear {
        6_000u32
    } else {
        30_000u32
    };
    let at = tile_in(room, core.0 as int, core.1 as int);
    let gate = gate_tile(core);
    let first = held_structure(STRUCTURE_ID_BASE, StructureKind::Spawn, at, hits);
    if is_gated(aim, tiles, core) {
        seq![
            first,
            held_structure(
                (STRUCTURE_ID_BASE + 1) as u32,
                StructureKind::Rampart,
                tile_in(room, gate.0 as int, gate.1 as int),
                25_000,
            ),
        ]
    } else {
        seq![first]
    }
}

/// The tower of a match.
pub open spec fn match_towers(
    aim: Aim,
    room: (i32, i32),
    tiles: Seq<(u8, u8)>,
    core: (u8, u8),
    towers: Seq<SimTower>,
) -> bool {
    if aim is ToweredCore {
        exists|spot: Option<(u8, u8)>|
            {
                &&& #[trigger] is_tower_tile(tiles, core, spot)
                &&& match spot {
                    None => towers.len() == 0,
                    Some(c) => towers == seq![
                        SimTower {
                            id: (STRUCTURE_ID_BASE + 1 + if is_gated(aim, tiles, core) {
                                1int
                            } else {
                                0int
                            }) as u32,
                            owner: DEFENDER,
                            pos: tile_in(room, c.0 as int, c.1 as int),
                            energy: 600,
                            hits: TOWER_HITS,
                        },
                    ],
                }
            }
    } else {
        towers.len() == 0
    }
}

/// What the attackers are after and where they stand for it.
pub open spec fn match_objective(
    aim: Aim,
    room: (i32, i32),
    tiles: Seq<(u8, u8)>,
    core: (u8, u8),
    entry: (u8, u8),
    o: Objective,
) -> bool {
    let front = front_of(tiles, core);
    &&& o.id == STRUCTURE_ID_BASE
    &&& o.room == room
    &&& o.pos == tile_in(room, core.0 as int, core.1 as int)
    &&& o.assault_pos == tile_in(room, front[0].0 as int, front[0].1 as int)
    &&& o.front_tiles@ == laid_in(room, front)
    &&& o.support_tiles@ == laid_in(room, support_of(tiles, core))
    &&& o.entry == tile_in(room, entry.0 as int, entry.1 as int)
    &&& o.kind == if aim is Clear {
        ObjectiveKind::Secure
    } else {
        ObjectiveKind::Raze
    }
}

/// The defenders that find a tile.
pub open spec fn match_garrison(
    room: (i32, i32),
    tiles: Seq<(u8, u8)>,
    core: (u8, u8),
    n: nat,
    garrison: Seq<Placed>,
) -> bool {
    exists|spots: Seq<(u8, u8)>|
        #[trigger] is_garrison_ground(tiles, core, n, spots) && garrison == Seq::new(
            spots.len(),
            |i: int|
                Placed {
                    id: (10_000 + i) as u32,
                    owner: DEFENDER,
                    pos: tile_in(room, spots[i].0 as int, spots[i].1 as int),
                },
        )
}

/// The match is laid out on the ground that is open from the middle of its terrain.
pub open spec fn is_match_on(
    c: Case,
    room: (i32, i32),
    tiles: Seq<(u8, u8)>,
    core: (u8, u8),
    entry: (u8, u8),
    m: Match,
) -> bool {
    &&& is_open_ground(m.terrain@.walls, (25, 25), tiles)
    &&& is_core_tile(tiles, core)
    &&& is_entry_tile(tiles, entry)
    &&& m.scenario.world.structures@ == match_structures(c.aim, room, tiles, core)
    &&& match_towers(c.aim, room, tiles, core, m.scenario.world.towers@)
    &&& m.scenario.objectives@.len() == 1
    &&& match_objective(c.aim, room, tiles, core, entry, m.scenario.objectives@[0])
    &&& match_garrison(
        room,
        tiles,
        core,
        flavour_numbers(c.defender as int).1 as nat,
        m.garrison@,
    )
}

/// The match of a case in a room.
pub open spec fn is_match(c: Case, fixture: TerrainFixture, room: (i32, i32), m: Match) -> bool {
    &&& m.terrain@ == symmetric(decoded(fixture.terrain@))
    &&& exists|tiles: Seq<(u8, u8)>, core: (u8, u8), entry: (u8, u8)|
        #[trigger] is_match_on(c, room, tiles, core, entry, m)
    &&& m.scenario.world.creeps@.len() == 0
    &&& m.scenario.world.controllers@.len() == 0
    &&& m.scenario.world.safe_mode_owner is None
    &&& m.scenario.attacker_owner == ATTACKER
    &&& m.scenario.defender_owner == DEFENDER
    &&& m.scenario.member_energy == flavour_numbers(c.attacker as int).0
    &&& m.scenario.onsite_budget == 1400
    &&& m.scenario.label@ == case_label(fixture.room@, c)
    &&& m.scenario.seed == c.seed
    &&& bodies_of(m.defenders@) == flavour_roster(c.defender as int, c.seed)
    &&& bodies_of(m.attackers@) == flavour_roster(c.attacker as int, c.seed)
}

fn lay_in(room: (i32, i32), tiles: &Vec<(u8, u8)>) -> (r: Vec<WPos>)
    requires
        room_in_world(room),
        in_bounds(tiles@),
    ensures
        r@ == laid_in(room, tiles@),
{
    let ghost want = laid_in(room, tiles@);
    let mut out: Vec<WPos> = Vec::new();
    let mut i: usize = 0;
    while i < tiles.len()
        invariant
            i <= tiles@.len(),
            room_in_world(room),
            in_bounds(tiles@),
            want == laid_in(room, tiles@),
            out@ == want.take(i as int),
        decreases tiles.len() - i,
    {
        let c: (u8, u8) = tiles[i];
        out.push(pos_in(room, c.0, c.1));
        assert(out@ =~= want.take(i + 1));
        i = i + 1;
    }
    assert(out@ =~= want);
    out
}

/// The structures and the tower that hold the core.
fn fortify(aim: Aim, room: (i32, i32), tiles: &Vec<(u8, u8)>, core: (u8, u8)) -> (r: (
    Vec<SimStructure>,
    Vec<SimTower>,
))
    requires
        room_in_world(room),
        in_bounds(tiles@),
        core.0 < 50,
        core.1 < 50,
    ensures
        r.0@ == match_structures(aim, room, tiles@, core),
        match_towers(aim, room, tiles@, core, r.1@),
        forall|i: int| 0 <= i < r.0@.len() ==> (#[trigger] r.0@[i]).pos.in_world(),
        forall|i: int| 0 <= i < r.1@.len() ==> (#[trigger] r.1@[i]).pos.in_world(),
{
    let hits: u32 = if let Aim::Clear = aim {
        6_000
    } else {
        30_000
    };
    let mut structures: Vec<SimStructure> = Vec::new();
    let mut towers: Vec<SimTower> = Vec::new();
    structures.push(
        SimStructure {
            id: STRUCTURE_ID_BASE,
            kind: StructureKind::Spawn,
            owner: Some(DEFENDER),
            pos: pos_in(room, core.0, core.1),
            hits,
            hits_max: hits,
        },
    );
    if let Aim::ToweredCore = aim {
        let gate: (u8, u8) = (
            if core.0 > 0 {
                core.0 - 1
            } else {
                0
            },
            core.1,
        );
        let gated: bool = lists_tile(tiles, gate);
        assert(gated == is_gated(aim, tiles@, core));
        if gated {
            structures.push(
                SimStructure {
                    id: STRUCTURE_ID_BASE + 1,
                    kind: StructureKind::Rampart,
                    owner: Some(DEFENDER),
                    pos: pos_in(room, gate.0, gate.1),
                    hits: 25_000,
                    hits_max: 25_000,
                },
            );
        }
        let spot: Option<(u8, u8)> = tower_tile(tiles, core);
        if let Some(c) = spot {
            let ghost k = choose|k: int| 0 <= k < tiles@.len() && #[trigger] tiles@[k] == c;
            assert(tiles@[k] == c);
            towers.push(
                SimTower {
                    id: STRUCTURE_ID_BASE + 1 + if gated {
                        1u32
                    } else {
                        0u32
                    },
                    owner: DEFENDER,
                    pos: pos_in(room, c.0, c.1),
                    energy: 600,
                    hits: TOWER_HITS,
                },
            );
        }
        assert(is_tower_tile(tiles@, core, spot));
    }
    assert(structures@ =~= match_structures(aim, room, tiles@, core));
    (structures, towers)
}

/// Puts the defenders on their tiles.
fn man(room: (i32, i32), tiles: &Vec<(u8, u8)>, core: (u8, u8), n: u8) -> (r: Vec<Placed>)
    requires
        room_in_world(room),
        in_bounds(tiles@),
        core.0 < 50,
        core.1 < 50,
    ensures
        match_garrison(room, tiles@, core, n as nat, r@),
{
    let spots: Vec<(u8, u8)> = garrison_tiles(tiles, core, n as usize);
    let ghost want = Seq::new(
        spots@.len(),
        |i: int|
            Placed {
                id: (10_000 + i) as u32,
                owner: DEFENDER,
                pos: tile_in(room, spots@[i].0 as int, spots@[i].1 as int),
            },
    );
    proof {
        lemma_garrison_size(
            tiles@.filter(holds(core, front_of(tiles@, core))),
            core,
            n as nat,
            spots@,
        );
    }
    let mut out: Vec<Placed> = Vec::new();
    let mut i: usize = 0;
    while i < spots.len()
        invariant
            i <= spots@.len() <= 255,
            room_in_world(room),
            in_bounds(spots@),
            want == Seq::new(
                spots@.len(),
                |i: int|
                    Placed {
                        id: (10_000 + i) as u32,
                        owner: DEFENDER,
                        pos: tile_in(room, spots@[i].0 as int, spots@[i].1 as int),
                    },
            ),
            out@ == want.take(i as int),
        decreases spots.len() - i,
    {
        let c: (u8, u8) = spots[i];
        out.push(Placed { id: 10_000 + i as u32, owner: DEFENDER, pos: pos_in(room, c.0, c.1) });
        assert(out@ =~= want.take(i + 1));
        i = i + 1;
    }
    assert(out@ =~= want);
    assert(is_garrison_ground(tiles@, core, n as nat, spots@));
    out
}

proof fn lemma_garrison_size(left: Seq<(u8, u8)>, core: (u8, u8), n: nat, out: Seq<(u8, u8)>)
    requires
        is_nearest_first(left, core, n, out),
    ensures
        out.len() <= n,
    decreases n,
{
    if n > 0 && left.len() > 0 {
        let k = choose|k: usize|
            #[trigger] is_first_least(offs(left, core), Some(k)) && out[0] == left[k as int]
                && is_nearest_first(left.remove(k as int), core, (n - 1) as nat, out.drop_first());
        lemma_garrison_size(left.remove(k as int), core, (n - 1) as nat, out.drop_first());
    }
}

/// The room of a fixture; one that has no room's name is taken for W1N1.
pub open spec fn match_room(name: Seq<char>) -> (i32, i32) {
    match room_read(name) {
        Some(room) => (room.0 as i32, room.1 as i32),
        None => ((-2) as i32, (-2) as i32),
    }
}

/// Lays a match out in a room.
pub fn assemble(c: &Case, fixture: &TerrainFixture) -> (m: Match)
    requires
        c.wf(),
        name_fits(fixture.room@),
    ensures
        is_match(*c, *fixture, match_room(fixture.room@), m),
        m.scenario.wf(),
{
    let room: (i32, i32) = match room_of_name(fixture.room.as_str()) {
        Some(room) => room,
        None => (-2, -2),
    };
    let ground: CombatTerrain = decode_terrain(fixture.terrain.as_str());
    let terrain: CombatTerrain = symmetric_terrain(&ground);
    let tiles: Vec<(u8, u8)> = open_component(&terrain, (25, 25));
    let core: (u8, u8) = core_tile(&tiles);
    let entry: (u8, u8) = entry_tile(&tiles);
    let front: Vec<(u8, u8)> = front_tiles(&tiles, core);
    let support: Vec<(u8, u8)> = support_tiles(&tiles, core);
    let (structures, towers): (Vec<SimStructure>, Vec<SimTower>) = fortify(
        c.aim,
        room,
        &tiles,
        core,
    );
    let def: Flavour = flavour(c.defender);
    let att: Flavour = flavour(c.attacker);
    let defenders: Vec<Vec<Part>> = def.roster(c.seed);
    let garrison: Vec<Placed> = man(room, &tiles, core, def.size);
    let kind: ObjectiveKind = if let Aim::Clear = c.aim {
        ObjectiveKind::Secure
    } else {
        ObjectiveKind::Raze
    };
    let objective: Objective = Objective {
        id: STRUCTURE_ID_BASE,
        room,
        pos: pos_in(room, core.0, core.1),
        assault_pos: pos_in(room, front[0].0, front[0].1),
        front_tiles: lay_in(room, &front),
        support_tiles: lay_in(room, &support),
        entry: pos_in(room, entry.0, entry.1),
        kind,
    };
    let mut objectives: Vec<Objective> = Vec::new();
    objectives.push(objective);
    let scenario: Scenario = Scenario {
        world: CombatWorld {
            creeps: Vec::new(),
            structures,
            towers,
            controllers: Vec::new(),
            safe_mode_owner: None,
        },
        objectives,
        attacker_owner: ATTACKER,
        defender_owner: DEFENDER,
        member_energy: att.energy,
        onsite_budget: 1400,
        label: c.label(fixture.room.as_str()),
        seed: c.seed as u64,
    };
    let m: Match = Match { terrain, scenario, defenders, garrison, attackers: att.roster(c.seed) };
    assert(is_match_on(*c, room, tiles@, core, entry, m));
    m
}

// ── What holds of the matches ──────────────────────────────────────────────

/// The left half is kept as it is, but for the landing, which is cleared.
pub proof fn the_left_half_is_kept(ground: TerrainView, x: int, y: int)
    requires
        0 <= x < 25,
        0 <= y < 50,
    ensures
        x < 12 && 18 <= y <= 31 ==> !symmetric(ground).wall_at(x, y) && !symmetric(
            ground,
        ).swamp_at(x, y),
        x >= 12 || y < 18 || y > 31 ==> symmetric(ground).wall_at(x, y) == ground.walls[50 * y
            + x],
        x >= 12 || y < 18 || y > 31 ==> symmetric(ground).swamp_at(x, y) == (ground.swamps[50 * y
            + x] && !ground.walls[50 * y + x]),
{
    let i = tile_index(x, y);
    assert(i % 50 == x && i / 50 == y);
}

/// An open seed is where a flood starts; otherwise no open tile is nearer than the start,
/// none as near lies in a row above it, and none as near lies west of it in its row.
pub proof fn a_flood_starts_nearest_the_seed(
    walls: Seq<bool>,
    seed: (int, int),
    r: (int, int),
    c: (int, int),
)
    requires
        is_start(walls, seed, r),
        in_room(c.0, c.1),
        !walls[50 * c.1 + c.0],
    ensures
        in_room(r.0, r.1),
        !walls[50 * r.1 + r.0],
        c == seed ==> r == seed,
        ({
            let near = |a: int, b: int|
                if a - b >= 0 {
                    a - b
                } else {
                    b - a
                };
            let dist = |t: (int, int)|
                if near(seed.0, t.0) >= near(seed.1, t.1) {
                    near(seed.0, t.0)
                } else {
                    near(seed.1, t.1)
                };
            &&& dist(r) <= dist(c)
            &&& dist(r) == dist(c) ==> r.1 <= c.1
            &&& dist(r) == dist(c) && r.1 == c.1 ==> r.0 <= c.0
        }),
{
    assert(passable(walls, c));
}

/// A flood looks east, west, south and north of a tile, in this order.
pub proof fn a_flood_looks_to_four_sides(c: (u8, u8))
    requires
        0 < c.0 < 49,
        0 < c.1 < 49,
    ensures
        beside(c) == seq![
            ((c.0 + 1) as u8, c.1),
            ((c.0 - 1) as u8, c.1),
            (c.0, (c.1 + 1) as u8),
            (c.0, (c.1 - 1) as u8),
        ],
{
}

/// What waits longest is looked at first; a wall and a tile that was reached are passed over,
/// and from any other the flood goes on.
pub proof fn a_flood_goes_on_in_turn(
    walls: Seq<bool>,
    c: (u8, u8),
    rest: Seq<(u8, u8)>,
    out: Seq<(u8, u8)>,
)
    ensures
        ({
            let f = flood_step(walls, Flood { queue: seq![c] + rest, out });
            &&& walls[50 * c.1 + c.0] ==> f.queue == rest && f.out == out
            &&& out.contains(c) ==> f.queue == rest && f.out == out
            &&& !walls[50 * c.1 + c.0] && !out.contains(c) ==> f.queue == rest + beside(c)
                && f.out == out.push(c)
        }),
{
    assert((seq![c] + rest).drop_first() =~= rest);
}

proof fn lemma_off_fits(c: (u8, u8), x: int, y: int)
    requires
        0 <= x < 256,
        0 <= y < 256,
    ensures
        0 <= off(c, x, y) <= 130_050,
        off(c, x, y) as i32 == off(c, x, y),
{
    let (dx, dy) = (c.0 - x, c.1 - y);
    assert(0 <= dx * dx <= 65025) by (nonlinear_arith)
        requires
            -255 <= dx <= 255,
    ;
    assert(0 <= dy * dy <= 65025) by (nonlinear_arith)
        requires
            -255 <= dy <= 255,
    ;
}

/// The core stands in the middle of the east where the ground has a tile there, on the one
/// nearest to column 34 and row 25, the first of equals; else on an easternmost tile.
pub proof fn a_core_stands_in_the_middle_of_the_east(
    tiles: Seq<(u8, u8)>,
    core: (u8, u8),
    i: int,
)
    requires
        is_core_tile(tiles, core),
    ensures
        tiles.len() == 0 ==> core == (34u8, 25u8),
        tiles.len() > 0 ==> tiles.contains(core),
        0 <= i < tiles.len() && 30 <= tiles[i].0 <= 40 && 20 <= tiles[i].1 <= 30 ==> {
            &&& 30 <= core.0 <= 40 && 20 <= core.1 <= 30
            &&& (core.0 - 34) * (core.0 - 34) + (core.1 - 25) * (core.1 - 25) <= (tiles[i].0 - 34)
                * (tiles[i].0 - 34) + (tiles[i].1 - 25) * (tiles[i].1 - 25)
            &&& (core.0 - 34) * (core.0 - 34) + (core.1 - 25) * (core.1 - 25) == (tiles[i].0 - 34)
                * (tiles[i].0 - 34) + (tiles[i].1 - 25) * (tiles[i].1 - 25) ==> tiles.take(
                i + 1,
            ).contains(core)
        },
        0 <= i < tiles.len() && !(30 <= core.0 <= 40 && 20 <= core.1 <= 30) ==> tiles[i].0
            <= core.0,
{
    if tiles.len() > 0 {
        if exists|i: int| 0 <= i < tiles.len() && suits_core(#[trigger] tiles[i]) {
            let m = core_measures(tiles);
            let k = choose|k: usize|
                #[trigger] is_first_least(m, Some(k)) && core == tiles[k as int];
            assert(m[k as int] is Some);
            assert(suits_core(core));
            assert(tiles[k as int] == core);
            lemma_off_fits(core, 34, 25);
            if 0 <= i < tiles.len() {
                lemma_off_fits(tiles[i], 34, 25);
                assert(m[i] is Some <==> suits_core(tiles[i]));
                if suits_core(tiles[i]) {
                    assert(m[i] matches Some(v) ==> m[k as int]->0 <= v);
                    if off(core, 34, 25) == off(tiles[i], 34, 25) {
                        assert(k <= i);
                        assert(tiles.take(i + 1)[k as int] == core);
                    }
                }
            }
        } else {
            let k = choose|k: int| #[trigger] is_easternmost(tiles, k) && core == tiles[k];
            assert(tiles[k] == core);
            if 0 <= i < tiles.len() {
                assert(!suits_core(tiles[i]));
            }
        }
    }
}

/// The attackers come in from the west: on the rows from 18 to 32 where the ground has a tile
/// there, on the first of the westernmost ones.
pub proof fn an_entry_lies_in_the_west(tiles: Seq<(u8, u8)>, entry: (u8, u8), i: int)
    requires
        is_entry_tile(tiles, entry),
    ensures
        tiles.len() == 0 ==> entry == (6u8, 25u8),
        tiles.len() > 0 ==> tiles.contains(entry),
        0 <= i < tiles.len() && 18 <= tiles[i].1 <= 32 ==> {
            &&& 18 <= entry.1 <= 32
            &&& entry.0 <= tiles[i].0
            &&& entry.0 == tiles[i].0 ==> tiles.take(i + 1).contains(entry)
        },
        0 <= i < tiles.len() && !(18 <= entry.1 <= 32) ==> {
            &&& entry.0 <= tiles[i].0
            &&& entry.0 == tiles[i].0 ==> tiles.take(i + 1).contains(entry)
        },
{
    if tiles.len() > 0 {
        let any = no_middle(tiles);
        let m = entry_measures(tiles, any);
        let k = choose|k: usize|
            #[trigger] is_first_least(m, Some(k)) && entry == tiles[k as int];
        assert(m[k as int] is Some);
        assert(tiles[k as int] == entry);
        if 0 <= i < tiles.len() {
            assert(m[i] is Some <==> any || suits_entry(tiles[i]));
            if suits_entry(tiles[i]) {
                assert(!any);
            }
            if m[i] is Some && entry.0 == tiles[i].0 {
                assert(k <= i);
                assert(tiles.take(i + 1)[k as int] == entry);
            }
        }
    }
}

/// The tiles around a tile are all that touch it, from west to east and each column from north
/// to south.
pub proof fn a_ring_is_all_that_touches(c: (u8, u8), d: (int, int))
    ensures
        ring(c).len() == 8,
        ring(c).contains(d) <==> d != (c.0 as int, c.1 as int) && -1 <= d.0 - c.0 <= 1 && -1 <= d.1
            - c.1 <= 1,
        forall|i: int, j: int|
            #![trigger ring(c)[i], ring(c)[j]]
            0 <= i < j < 8 ==> ring(c)[i].0 < ring(c)[j].0 || ring(c)[i].0 == ring(c)[j].0
                && ring(c)[i].1 < ring(c)[j].1,
{
    let r = ring(c);
    if d != (c.0 as int, c.1 as int) && -1 <= d.0 - c.0 <= 1 && -1 <= d.1 - c.1 <= 1 {
        assert(d == r[0] || d == r[1] || d == r[2] || d == r[3] || d == r[4] || d == r[5] || d
            == r[6] || d == r[7]);
    }
}

/// Whoever stands around a tile stands on the ground next to it, no further east than allowed
/// and on nothing barred. At most four do, and fewer only where there is no more room.
pub proof fn standing_around_is_next_to_it(
    tiles: Seq<(u8, u8)>,
    c: (u8, u8),
    east: int,
    barred: Seq<(u8, u8)>,
    d: (u8, u8),
)
    requires
        d.0 < 50,
        d.1 < 50,
    ensures
        ({
            let s = stand_around(tiles, c, east, barred);
            let fit = d != c && -1 <= d.0 - c.0 <= 1 && -1 <= d.1 - c.1 <= 1 && d.0 <= east
                && tiles.contains(d) && !barred.contains(d);
            &&& s.len() <= 4
            &&& s.contains(d) ==> fit
            &&& fit && s.len() < 4 ==> s.contains(d)
        }),
{
    let p = fit_for(tiles, east, barred);
    let all = ring(c).filter(p);
    let s = stand_around(tiles, c, east, barred);
    let t = (d.0 as int, d.1 as int);
    a_ring_is_all_that_touches(c, t);
    if s.contains(d) {
        let k = choose|k: int| 0 <= k < s.len() && s[k] == d;
        ring(c).lemma_filter_pred(p, k);
        assert(p(all[k]));
        assert(all[k] == t);
        assert(all.contains(t));
        ring(c).lemma_filter_contains_rev(p, t);
    }
    if s.len() < 4 && p(t) && ring(c).contains(t) {
        let k = choose|k: int| 0 <= k < ring(c).len() && ring(c)[k] == t;
        ring(c).lemma_filter_contains(p, k);
        let j = choose|j: int| 0 <= j < all.len() && all[j] == t;
        assert(s[j] == d);
    }
}

/// The front lies west of the core, or level with it, where the ground has a tile next to the
/// core there; else next to it; else on it.
pub proof fn a_front_lies_before_the_core(
    tiles: Seq<(u8, u8)>,
    core: (u8, u8),
    d: (u8, u8),
    k: int,
)
    requires
        d.0 < 50,
        d.1 < 50,
        core.0 < 50,
        core.1 < 50,
        d != core,
        -1 <= d.0 - core.0 <= 1,
        -1 <= d.1 - core.1 <= 1,
        tiles.contains(d),
        0 <= k < front_of(tiles, core).len(),
    ensures
        1 <= front_of(tiles, core).len() <= 4,
        front_of(tiles, core)[k] != core,
        tiles.contains(front_of(tiles, core)[k]),
        -1 <= front_of(tiles, core)[k].0 - core.0 <= 1,
        -1 <= front_of(tiles, core)[k].1 - core.1 <= 1,
        d.0 <= core.0 ==> front_of(tiles, core)[k].0 <= core.0,
{
    let west = stand_around(tiles, core, core.0 as int, seq![]);
    let any = stand_around(tiles, core, 49, seq![]);
    let none = Seq::<(u8, u8)>::empty();
    let f = front_of(tiles, core);
    let c = f[k];
    assert(f.contains(c));
    assert(!none.contains(d));
    standing_around_is_next_to_it(tiles, core, core.0 as int, none, d);
    standing_around_is_next_to_it(tiles, core, 49, none, d);
    if west.len() > 0 {
        lemma_stands_in_room(tiles, core, core.0 as int, none, k);
        standing_around_is_next_to_it(tiles, core, core.0 as int, none, c);
    } else {
        assert(any.len() > 0);
        lemma_stands_in_room(tiles, core, 49, none, k);
        standing_around_is_next_to_it(tiles, core, 49, none, c);
    }
}

proof fn lemma_stands_in_room(
    tiles: Seq<(u8, u8)>,
    c: (u8, u8),
    east: int,
    barred: Seq<(u8, u8)>,
    k: int,
)
    requires
        0 <= k < stand_around(tiles, c, east, barred).len(),
    ensures
        stand_around(tiles, c, east, barred)[k].0 < 50,
        stand_around(tiles, c, east, barred)[k].1 < 50,
{
    let p = fit_for(tiles, east, barred);
    ring(c).lemma_filter_pred(p, k);
}

/// A core with no ground around it is stormed from its own tile.
pub proof fn a_walled_in_core_is_its_own_front(tiles: Seq<(u8, u8)>, core: (u8, u8))
    requires
        core.0 < 50,
        core.1 < 50,
        forall|d: (u8, u8)|
            #[trigger] tiles.contains(d) ==> d == core || d.0 > core.0 + 1 || d.0 + 1 < core.0
                || d.1 > core.1 + 1 || d.1 + 1 < core.1,
    ensures
        front_of(tiles, core) == seq![core],
{
    let none = Seq::<(u8, u8)>::empty();
    let west = stand_around(tiles, core, core.0 as int, none);
    let any = stand_around(tiles, core, 49, none);
    if west.len() > 0 {
        lemma_stands_in_room(tiles, core, core.0 as int, none, 0);
        assert(west.contains(west[0]));
        standing_around_is_next_to_it(tiles, core, core.0 as int, none, west[0]);
    }
    if any.len() > 0 {
        lemma_stands_in_room(tiles, core, 49, none, 0);
        assert(any.contains(any[0]));
        standing_around_is_next_to_it(tiles, core, 49, none, any[0]);
    }
}

/// Healers stand on the ground next to the first of the front, and neither on the front nor on
/// the core.
pub proof fn healers_stand_behind_the_front(tiles: Seq<(u8, u8)>, core: (u8, u8), k: int)
    requires
        0 <= k < support_of(tiles, core).len(),
    ensures
        support_of(tiles, core).len() <= 4,
        ({
            let c = support_of(tiles, core)[k];
            let first = front_of(tiles, core)[0];
            &&& c != core
            &&& !front_of(tiles, core).contains(c)
            &&& tiles.contains(c)
            &&& -1 <= c.0 - first.0 <= 1
            &&& -1 <= c.1 - first.1 <= 1
        }),
{
    let front = front_of(tiles, core);
    let barred = front.push(core);
    let c = support_of(tiles, core)[k];
    lemma_stands_in_room(tiles, front[0], 49, barred, k);
    assert(support_of(tiles, core).contains(c));
    standing_around_is_next_to_it(tiles, front[0], 49, barred, c);
    assert(barred[front.len() as int] == core);
    if front.contains(c) {
        let j = choose|j: int| 0 <= j < front.len() && front[j] == c;
        assert(barred[j] == c);
    }
}

/// A tower stands three to six tiles off the core, on the first such tile of the ground.
pub proof fn a_tower_stands_off_the_core(
    tiles: Seq<(u8, u8)>,
    core: (u8, u8),
    r: Option<(u8, u8)>,
    i: int,
)
    requires
        is_tower_tile(tiles, core, r),
        0 <= i < tiles.len(),
    ensures
        ({
            let within = |c: (u8, u8), n: int|
                -n <= c.0 - core.0 <= n && -n <= c.1 - core.1 <= n;
            &&& within(tiles[i], 6) && !within(tiles[i], 2) ==> r is Some && tiles.take(
                i + 1,
            ).contains(r->0)
            &&& r is Some ==> tiles.contains(r->0) && within(r->0, 6) && !within(r->0, 2)
        }),
{
    if let Some(c) = r {
        let k = choose|k: int|
            0 <= k < tiles.len() && #[trigger] tiles[k] == c && 3 <= rings(
                tile_of(core),
                tile_of(c),
            ) <= 6 && forall|i: int|
                0 <= i < k ==> !(3 <= rings(tile_of(core), tile_of(#[trigger] tiles[i])) <= 6);
        assert(tiles[k] == c);
        if k <= i {
            assert(tiles.take(i + 1)[k] == c);
        }
    }
}

/// A defender keeps off the core and its front, and stands at most two columns west of the
/// core.
pub proof fn a_defender_keeps_by_the_core(core: (u8, u8), front: Seq<(u8, u8)>, c: (u8, u8))
    ensures
        holds(core, front)(c) ==> c != core && !front.contains(c) && core.0 - c.0 <= 2,
        c != core && !front.contains(c) && c.0 >= core.0 ==> holds(core, front)(c),
        c != core && !front.contains(c) && core.0 - c.0 == 1 ==> holds(core, front)(c),
        c != core && !front.contains(c) && core.0 - c.0 == 2 ==> holds(core, front)(c),
{
}

/// Defenders take the nearest tiles first: each tile taken is as near as any that is left, the
/// first of equals, and tiles are taken until there are enough or none is left.
pub proof fn defenders_take_the_nearest(
    left: Seq<(u8, u8)>,
    core: (u8, u8),
    n: nat,
    out: Seq<(u8, u8)>,
    i: int,
)
    requires
        is_nearest_first(left, core, n, out),
        0 <= i < left.len(),
    ensures
        n <= left.len() ==> out.len() == n,
        n > left.len() ==> out.len() == left.len(),
        n > 0 ==> {
            let d = |c: (u8, u8)|
                (c.0 - core.0) * (c.0 - core.0) + (c.1 - core.1) * (c.1 - core.1);
            &&& left.contains(out[0])
            &&& d(out[0]) <= d(left[i])
            &&& d(out[0]) == d(left[i]) ==> left.take(i + 1).contains(out[0])
        },
{
    lemma_garrison_fills(left, core, n, out);
    if n > 0 {
        let m = offs(left, core);
        let k = choose|k: usize|
            #[trigger] is_first_least(m, Some(k)) && out[0] == left[k as int] && is_nearest_first(
                left.remove(k as int),
                core,
                (n - 1) as nat,
                out.drop_first(),
            );
        assert(m[k as int] is Some && m[i] is Some);
        assert(left[k as int] == out[0]);
        lemma_off_fits(left[k as int], core.0 as int, core.1 as int);
        lemma_off_fits(left[i], core.0 as int, core.1 as int);
        if m[k as int] == m[i] {
            assert(k <= i);
            assert(left.take(i + 1)[k as int] == out[0]);
        }
    }
}

proof fn lemma_garrison_fills(left: Seq<(u8, u8)>, core: (u8, u8), n: nat, out: Seq<(u8, u8)>)
    requires
        is_nearest_first(left, core, n, out),
    ensures
        n <= left.len() ==> out.len() == n,
        n > left.len() ==> out.len() == left.len(),
    decreases n,
{
    if n > 0 && left.len() > 0 {
        let k = choose|k: usize|
            #[trigger] is_first_least(offs(left, core), Some(k)) && out[0] == left[k as int]
                && is_nearest_first(left.remove(k as int), core, (n - 1) as nat, out.drop_first());
        lemma_garrison_fills(left.remove(k as int), core, (n - 1) as nat, out.drop_first());
    }
}

/// Each aim has its own tag, and the three come in a fixed order.
pub proof fn aims_have_their_tags(k: int)
    ensures
        aim_of(0) == Aim::Clear && tag_of(aim_of(0)) == "open-clear"@,
        aim_of(1) == Aim::Core && tag_of(aim_of(1)) == "raze-core"@,
        aim_of(2) == Aim::ToweredCore && tag_of(aim_of(2)) == "towered-core"@,
        0 <= k < 3 ==> aim_of(k) != aim_of((k + 1) % 3),
{
}

/// Flavours differ in their salt, and each draws the force that its name says.
pub proof fn flavours_are_told_apart(i: int, j: int)
    requires
        0 <= i < j < 6,
    ensures
        FLAVOURS == 6,
        flavour_numbers(i).2 < flavour_numbers(j).2,
        2 <= flavour_numbers(i).1 <= 5 && 2 <= flavour_numbers(j).1 <= 5,
        flavour_name(0) == "ranged-heavy"@ && flavour_numbers(0) == (12_900u32, 4u8, 11u32),
        flavour_name(1) == "melee+heal"@ && flavour_numbers(1) == (8_400u32, 4u8, 23u32),
        flavour_name(2) == "mixed"@ && flavour_numbers(2) == (5_600u32, 3u8, 37u32),
        flavour_name(3) == "lean-drain"@ && flavour_numbers(3) == (2_300u32, 2u8, 53u32),
        flavour_name(4) == "big-brawl"@ && flavour_numbers(4) == (12_900u32, 5u8, 71u32),
        flavour_name(5) == "small-skirmish"@ && flavour_numbers(5) == (3_400u32, 3u8, 97u32),
{
}

/// From one match to the next the seed of a roster moves on by 131, and salts set seeds apart.
pub proof fn roster_seeds_move_on(seed: u32, salt: u32, other: u32)
    ensures
        roster_seed(0, salt) == salt,
        seed < u32::MAX ==> roster_seed((seed + 1) as u32, salt) == (roster_seed(seed, salt) + 131)
            % 0x1_0000_0000,
        salt != other ==> roster_seed(seed, salt) != roster_seed(seed, other),
{
}

/// A roster has as many members as its flavour says, drawn within its energy from its seed.
pub proof fn a_roster_is_drawn_from_its_seed(i: int, seed: u32)
    ensures
        flavour_roster(i, seed) == drawn_squad(
            seed_state(((131 * seed + flavour_numbers(i).2) % 0x1_0000_0000) as u32),
            flavour_numbers(i).0,
            flavour_numbers(i).1 as nat,
        ).0,
{
}

/// Every second room is visited, then every fourth of the others; none twice.
pub proof fn rooms_are_visited_once(n: int, v: int, w: int)
    requires
        0 < n,
        0 <= v < w < visits(n),
    ensures
        visited(n, v) != visited(n, w),
        visited(n, 0) == 0,
        visited(n, w) % 2 == 0 ==> visited(n, w) == visited(n, w - 1) + 2,
        visited(n, w) % 2 == 1 && visited(n, w - 1) % 2 == 1 ==> visited(n, w) == visited(n, w - 1)
            + 4,
        visited(n, w) % 2 == 1 && visited(n, w - 1) % 2 == 0 ==> visited(n, w) == 1 && visited(
            n,
            w - 1,
        ) + 2 >= n,
        0 <= visited(n, w) < n,
        visited(n, visits(n) - 1) % 2 == 1 ==> visited(n, visits(n) - 1) + 4 >= n,
        visited(n, visits(n) - 1) % 2 == 0 ==> n == 1,
{
}

/// A corpus has three matches for each visit, and thirty-six at most.
pub proof fn a_corpus_has_three_matches_a_visit(n: int, k: int)
    requires
        n >= 0,
    ensures
        visits(n) <= 12 ==> corpus_over(n).len() == 3 * visits(n),
        visits(n) > 12 ==> corpus_over(n).len() == 36,
        n == 0 ==> corpus_over(n).len() == 0,
        0 <= k < corpus_over(n).len() ==> corpus_over(n)[k] == case_at(n, k),
{
}

/// The matches in one room follow the three aims, with both sides' flavours moving on by one
/// each time; with the next room the attackers' flavour moves on too.
pub proof fn flavours_take_turns(n: int, k: int)
    requires
        0 < n,
        0 <= k < corpus_over(n).len(),
    ensures
        case_at(n, k).seed == k,
        case_at(n, 0).attacker == 0 && case_at(n, 0).defender == 1,
        case_at(n, k).fixture == visited(n, k / 3),
        k % 3 == 0 ==> case_at(n, k).aim == Aim::Clear,
        k % 3 == 1 ==> case_at(n, k).aim == Aim::Core,
        k % 3 == 2 ==> case_at(n, k).aim == Aim::ToweredCore,
        k % 3 != 0 ==> {
            &&& case_at(n, k).fixture == case_at(n, k - 1).fixture
            &&& case_at(n, k).attacker == (case_at(n, k - 1).attacker + 1) % 6
            &&& case_at(n, k).defender == (case_at(n, k - 1).defender + 1) % 6
        },
        k >= 3 ==> case_at(n, k).attacker == (case_at(n, k - 3).attacker + 1) % 6,
{
    cases_are_in_reach(n, k);
    let (v, room) = (k / 3, visited(n, k / 3));
    let turn = v + k % 3;
    assert(k < 36 && v < 12);
    assert(0 <= room <= 45);
    assert(visited(n, 0) == 0);
    lemma_turn(turn, room);
    if k % 3 != 0 {
        assert((k - 1) / 3 == v && (k - 1) % 3 == k % 3 - 1);
        lemma_turn(turn - 1, room);
    }
    if k >= 3 {
        assert((k - 3) / 3 == v - 1 && (k - 3) % 3 == k % 3);
        lemma_turn(turn - 1, room);
    }
}

proof fn lemma_turn(t: int, room: int)
    requires
        0 <= t,
        0 <= room,
    ensures
        0 <= t % 6 < 6 && 0 <= (t + 1 + room % 3) % 6 < 6,
        (t + 1) % 6 == (t % 6 + 1) % 6,
        (t + 2 + room % 3) % 6 == ((t + 1 + room % 3) % 6 + 1) % 6,
        (t + 1 + room % 3) % 6 == (t % 6 + 1 + room % 3) % 6,
        (t + 1 + room % 3) % 6 != t % 6,
{
}

/// The defenders' flavour comes one to three behind the attackers' in the round, by the room, so
/// that the sides never draw the same.
pub proof fn the_sides_draw_different_flavours(n: int, k: int)
    requires
        0 < n,
        0 <= k < corpus_over(n).len(),
    ensures
        case_at(n, k).attacker != case_at(n, k).defender,
        case_at(n, k).fixture % 3 == 0 ==> case_at(n, k).defender == (case_at(n, k).attacker + 1)
            % 6,
        case_at(n, k).fixture % 3 == 1 ==> case_at(n, k).defender == (case_at(n, k).attacker + 2)
            % 6,
        case_at(n, k).fixture % 3 == 2 ==> case_at(n, k).defender == (case_at(n, k).attacker + 3)
            % 6,
{
    cases_are_in_reach(n, k);
    let room = visited(n, k / 3);
    assert(k / 3 < 12);
    assert(0 <= room <= 45);
    lemma_turn(k / 3 + k % 3, room);
}

/// A slug grows by letters and digits alone, capitals made small, with one dash wherever
/// something else stood between two of them.
pub proof fn a_slug_grows_by_words(s: Seq<char>, c: char)
    ensures
        slugged(seq![]).0.len() == 0,
        !(('a' <= c && c <= 'z') || ('A' <= c && c <= 'Z') || ('0' <= c && c <= '9')) ==> slugged(
            s.push(c),
        ).0 == slugged(s).0,
        ('a' <= c && c <= 'z') || ('0' <= c && c <= '9') ==> slugged(s.push(c)).0.last() == c,
        'A' <= c && c <= 'Z' ==> slugged(s.push(c)).0.last() as int == c as int - 'A' as int
            + 'a' as int,
        ('a' <= c && c <= 'z') || ('A' <= c && c <= 'Z') || ('0' <= c && c <= '9') ==> {
            let old_part = slugged(s.push(c)).0.drop_last();
            &&& slugged(s).0.len() == 0 ==> old_part.len() == 0
            &&& s.len() > 0 && is_word(s.last()) ==> old_part == slugged(s).0
            &&& s.len() > 0 && !is_word(s.last()) && slugged(s).0.len() > 0 ==> old_part
                == slugged(s).0.push('-')
        },
{
    assert(s.push(c).drop_last() =~= s);
    let (t, apart) = slugged(s);
    let r = slugged(s.push(c)).0;
    if is_word(c) {
        let base = if apart && t.len() > 0 {
            t.push('-')
        } else {
            t
        };
        assert(r.drop_last() =~= base);
    }
}

/// A match's file is numbered with two digits, so that names sort as the matches do.
pub proof fn a_match_is_numbered_with_two_digits(room: Seq<char>, c: Case)
    requires
        c.seed < 100,
    ensures
        case_file(room, c).len() >= 2,
        case_file(room, c)[0] as int == '0' as int + c.seed / 10,
        case_file(room, c)[1] as int == '0' as int + c.seed % 10,
        case_file(room, c).skip(2) == "_selfplay_"@ + slugged(case_words(room, c)).0,
{
    reveal_strlit("0");
    reveal_strlit("");
    reveal_with_fuel(decimal, 2);
    let tail = "_selfplay_"@ + slugged(case_words(room, c)).0;
    let number = (if c.seed < 10 {
        "0"@
    } else {
        ""@
    }) + decimal(c.seed as nat);
    assert(number.len() == 2);
    assert(case_file(room, c) =~= number + tail);
    assert(case_file(room, c).skip(2) =~= tail);
}

/// A match's names tell the room first, then the attackers, the aim and the defenders.
pub proof fn a_match_names_the_attackers_first(room: Seq<char>, c: Case)
    ensures
        ({
            let (a, d) = (flavour_name(c.attacker as int), flavour_name(c.defender as int));
            let t = tag_of(c.aim);
            let w = case_words(room, c);
            let n = room.len() as int;
            &&& w.len() == n + a.len() + t.len() + d.len() + 3
            &&& w.take(n) == room && w[n] == '-'
            &&& w.skip(n + 1).take(a.len() as int) == a && w[n + 1 + a.len()] == '-'
            &&& w.skip(w.len() - d.len()) == d && w[w.len() - d.len() - 1] == '-'
            &&& w.skip(n + a.len() + 2).take(t.len() as int) == t
        }),
{
    reveal_strlit("-");
    let (a, d) = (flavour_name(c.attacker as int), flavour_name(c.defender as int));
    let t = tag_of(c.aim);
    let w = case_words(room, c);
    let n = room.len() as int;
    assert(w.take(n) =~= room);
    assert(w.skip(n + 1).take(a.len() as int) =~= a);
    assert(w.skip(w.len() - d.len()) =~= d);
    assert(w.skip(n + a.len() + 2).take(t.len() as int) =~= t);
}

/// The core is a spawn of the defenders, weak where only they have to be cleared. A rampart
/// stands west of a towered core where the ground allows it.
pub proof fn the_core_is_held_by_the_defenders(
    aim: Aim,
    room: (i32, i32),
    tiles: Seq<(u8, u8)>,
    core: (u8, u8),
)
    requires
        0 < core.0 < 50,
        core.1 < 50,
    ensures
        ({
            let s = match_structures(aim, room, tiles, core);
            let west = ((core.0 - 1) as u8, core.1);
            &&& s[0].id == 1_000_000 && s[0].kind == StructureKind::Spawn && s[0].owner == Some(
                DEFENDER,
            )
            &&& s[0].hits == s[0].hits_max
            &&& s[0].pos == tile_in(room, core.0 as int, core.1 as int)
            &&& aim == Aim::Clear ==> s[0].hits == 6_000
            &&& aim != Aim::Clear ==> s[0].hits == 30_000
            &&& aim != Aim::ToweredCore || !tiles.contains(west) ==> s.len() == 1
            &&& aim == Aim::ToweredCore && tiles.contains(west) ==> {
                &&& s.len() == 2
                &&& s[1].id == 1_000_001 && s[1].kind == StructureKind::Rampart && s[1].owner
                    == Some(DEFENDER)
                &&& s[1].hits == 25_000 && s[1].hits_max == 25_000
                &&& s[1].pos == tile_in(room, core.0 - 1, core.1 as int)
            }
        }),
{
}

/// Only a towered core has a tower, and one at most: filled, whole and the defenders', with the
/// next id after the structures.
pub proof fn a_towered_core_has_its_tower(
    aim: Aim,
    room: (i32, i32),
    tiles: Seq<(u8, u8)>,
    core: (u8, u8),
    towers: Seq<SimTower>,
    i: int,
)
    requires
        match_towers(aim, room, tiles, core, towers),
        0 <= i < tiles.len(),
    ensures
        aim != Aim::ToweredCore ==> towers.len() == 0,
        towers.len() <= 1,
        aim == Aim::ToweredCore && -6 <= tiles[i].0 - core.0 <= 6 && -6 <= tiles[i].1 - core.1 <= 6
            && (tiles[i].0 - core.0 > 2 || tiles[i].0 - core.0 < -2 || tiles[i].1 - core.1 > 2
            || tiles[i].1 - core.1 < -2) ==> towers.len() == 1,
        towers.len() == 1 ==> {
            &&& towers[0].owner == DEFENDER
            &&& towers[0].energy == 600
            &&& towers[0].hits == 3000
            &&& towers[0].id == 1_000_000 + match_structures(aim, room, tiles, core).len()
        },
{
    if aim is ToweredCore {
        let spot = choose|spot: Option<(u8, u8)>|
            {
                &&& #[trigger] is_tower_tile(tiles, core, spot)
                &&& match spot {
                    None => towers.len() == 0,
                    Some(c) => towers == seq![
                        SimTower {
                            id: (STRUCTURE_ID_BASE + 1 + if is_gated(aim, tiles, core) {
                                1int
                            } else {
                                0int
                            }) as u32,
                            owner: DEFENDER,
                            pos: tile_in(room, c.0 as int, c.1 as int),
                            energy: 600,
                            hits: TOWER_HITS,
                        },
                    ],
                }
            };
        a_tower_stands_off_the_core(tiles, core, spot, i);
    }
}

/// The attackers go for the core: to hold the ground where it only has to be cleared, to raze
/// it otherwise. They storm it from the first tile of the front.
pub proof fn the_core_is_the_objective(
    aim: Aim,
    room: (i32, i32),
    tiles: Seq<(u8, u8)>,
    core: (u8, u8),
    entry: (u8, u8),
    o: Objective,
)
    requires
        match_objective(aim, room, tiles, core, entry, o),
        front_of(tiles, core).len() > 0,
    ensures
        o.id == match_structures(aim, room, tiles, core)[0].id,
        o.pos == match_structures(aim, room, tiles, core)[0].pos,
        o.room == room,
        o.assault_pos == o.front_tiles@[0],
        o.front_tiles@.len() == front_of(tiles, core).len(),
        o.support_tiles@.len() == support_of(tiles, core).len(),
        o.entry == tile_in(room, entry.0 as int, entry.1 as int),
        aim == Aim::Clear ==> o.kind == ObjectiveKind::Secure,
        aim == Aim::Core || aim == Aim::ToweredCore ==> o.kind == ObjectiveKind::Raze,
{
}

/// Defenders are numbered from 10,000 on in the order in which they take their tiles.
pub proof fn the_garrison_is_numbered_in_order(
    room: (i32, i32),
    tiles: Seq<(u8, u8)>,
    core: (u8, u8),
    n: nat,
    garrison: Seq<Placed>,
    i: int,
)
    requires
        match_garrison(room, tiles, core, n, garrison),
        n <= 255,
        0 <= i < garrison.len(),
    ensures
        garrison.len() <= n,
        garrison[i].id == 10_000 + i,
        garrison[i].owner == DEFENDER,
{
    let spots = choose|spots: Seq<(u8, u8)>|
        #[trigger] is_garrison_ground(tiles, core, n, spots) && garrison == Seq::new(
            spots.len(),
            |i: int|
                Placed {
                    id: (10_000 + i) as u32,
                    owner: DEFENDER,
                    pos: tile_in(room, spots[i].0 as int, spots[i].1 as int),
                },
        );
    lemma_garrison_size(tiles.filter(holds(core, front_of(tiles, core))), core, n, spots);
}

/// A match starts with no creep on the ground, and leaves the attackers 1400 ticks. Both sides
/// draw their rosters by the match's own number.
pub proof fn a_match_has_its_terms(c: Case, fixture: TerrainFixture, room: (i32, i32), m: Match)
    requires
        is_match(c, fixture, room, m),
    ensures
        m.scenario.onsite_budget == 1400,
        m.scenario.seed == c.seed,
        m.scenario.attacker_owner == 0 && m.scenario.defender_owner == 1,
        m.scenario.world.creeps@.len() == 0 && m.scenario.world.controllers@.len() == 0,
        m.scenario.member_energy == flavour_numbers(c.attacker as int).0,
        bodies_of(m.attackers@) == flavour_roster(c.attacker as int, m.scenario.seed as u32),
        bodies_of(m.defenders@) == flavour_roster(c.defender as int, m.scenario.seed as u32),
{
}

/// A room is read from its name, and one without a room's name is W1N1.
pub proof fn a_match_is_fought_where_its_room_is(name: Seq<char>)
    ensures
        room_read(name) is None ==> match_room(name) == (-2i32, -2i32),
        room_read(name) matches Some(r) ==> -128 <= r.0 < 128 && -128 <= r.1 < 128 ==> match_room(
            name,
        ).0 == r.0 && match_room(name).1 == r.1,
{
}

} // verus!
