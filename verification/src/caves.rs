//! Cave terrain around a stronghold: clearing the ground that must be open, and
//! making sure that the approach is connected.

use crate::colony::{count_true, lemma_count_bound, no_flags};
use crate::terrain_import::{
    in_room, lemma_count_set, tile_index, CombatTerrain, TerrainView, TILES,
};
use vstd::prelude::*;

verus! {

/// How many seeds are tried for a connected approach.
pub const PROBES: u32 = 32;

/// A square that is cleared: its centre and how far it reaches.
#[derive(Clone, Copy, Debug, PartialEq, Eq, Structural)]
pub struct Clearing {
    pub x: u8,
    pub y: u8,
    pub reach: u8,
}

pub open spec fn within(a: int, b: int, reach: int) -> bool {
    -reach <= a - b <= reach
}

pub open spec fn clears(c: Clearing, i: int) -> bool {
    within(i % 50, c.x as int, c.reach as int) && within(i / 50, c.y as int, c.reach as int)
}

/// The walls without what the clearings open.
pub open spec fn carved(walls: Seq<bool>, clearings: Seq<Clearing>) -> Seq<bool> {
    Seq::new(
        TILES as nat,
        |i: int|
            walls[i] && forall|k: int|
                0 <= k < clearings.len() ==> !clears(#[trigger] clearings[k], i),
    )
}

/// The tile is in the room and no wall.
pub open spec fn passable(walls: Seq<bool>, c: (int, int)) -> bool {
    in_room(c.0, c.1) && !walls[tile_index(c.0, c.1)]
}

/// The tiles share an edge.
pub open spec fn adjoin(a: (int, int), b: (int, int)) -> bool {
    ||| a.0 == b.0 && (a.1 == b.1 + 1 || a.1 == b.1 - 1)
    ||| a.1 == b.1 && (a.0 == b.0 + 1 || a.0 == b.0 - 1)
}

/// A walk: each tile shares an edge with the one before, and all but the first are
/// passable.
pub open spec fn is_walk(walls: Seq<bool>, path: Seq<(int, int)>) -> bool {
    &&& path.len() > 0
    &&& forall|i: int| 0 < i < path.len() ==> passable(walls, #[trigger] path[i])
    &&& forall|i: int|
        0 < i < path.len() ==> adjoin(path[i - 1], #[trigger] path[i])
}

/// There is a walk from one tile to another.
pub open spec fn connects(walls: Seq<bool>, from: (int, int), to: (int, int)) -> bool {
    exists|path: Seq<(int, int)>|
        #[trigger] is_walk(walls, path) && path[0] == from && path.last() == to
}

pub proof fn lemma_walk_on(walls: Seq<bool>, from: (int, int), a: (int, int), b: (int, int))
    requires
        connects(walls, from, a),
        passable(walls, b),
        adjoin(a, b),
    ensures
        connects(walls, from, b),
{
    let path = choose|path: Seq<(int, int)>|
        #[trigger] is_walk(walls, path) && path[0] == from && path.last() == a;
    let on = path.push(b);
    assert forall|i: int| 0 < i < on.len() implies passable(walls, #[trigger] on[i]) by {
        if i < path.len() {
            assert(on[i] == path[i]);
        }
    }
    assert forall|i: int| 0 < i < on.len() implies adjoin(on[i - 1], #[trigger] on[i]) by {
        if i < path.len() {
            assert(on[i] == path[i]);
            assert(on[i - 1] == path[i - 1]);
        }
    }
    assert(is_walk(walls, on));
}

pub proof fn lemma_walk_stays(
    walls: Seq<bool>,
    seen: Seq<bool>,
    path: Seq<(int, int)>,
    n: int,
)
    requires
        is_walk(walls, path),
        0 <= n < path.len(),
        seen.len() == TILES,
        in_room(path[0].0, path[0].1),
        seen[tile_index(path[0].0, path[0].1)],
        forall|a: (int, int), b: (int, int)|
            #![trigger adjoin(a, b)]
            in_room(a.0, a.1) && seen[tile_index(a.0, a.1)] && adjoin(a, b) && passable(walls, b)
                ==> seen[tile_index(b.0, b.1)],
    ensures
        in_room(path[n].0, path[n].1),
        seen[tile_index(path[n].0, path[n].1)],
    decreases n,
{
    if n > 0 {
        lemma_walk_stays(walls, seen, path, n - 1);
        assert(passable(walls, path[n]));
        assert(adjoin(path[n - 1], path[n]));
    }
}

/// Where the walls on the way are none, a walk can be made in both directions.
pub proof fn connection_is_symmetric(walls: Seq<bool>, a: (int, int), b: (int, int))
    requires
        connects(walls, a, b),
        passable(walls, a),
    ensures
        connects(walls, b, a),
{
    let path = choose|path: Seq<(int, int)>|
        #[trigger] is_walk(walls, path) && path[0] == a && path.last() == b;
    let back = path.reverse();
    assert forall|i: int| 0 < i < back.len() implies passable(walls, #[trigger] back[i]) by {
        let j = path.len() - 1 - i;
        assert(back[i] == path[j]);
        if j == 0 {
            assert(path[j] == a);
        }
    }
    assert forall|i: int| 0 < i < back.len() implies adjoin(back[i - 1], #[trigger] back[i]) by {
        let j = path.len() - 1 - i;
        assert(back[i] == path[j]);
        assert(back[i - 1] == path[j + 1]);
        assert(adjoin(path[j + 1 - 1], path[j + 1]));
    }
    assert(is_walk(walls, back));
    assert(back[0] == b);
    assert(back.last() == a);
}

pub open spec fn stacked(stack: Seq<(u8, u8)>, c: (int, int)) -> bool {
    exists|j: int|
        0 <= j < stack.len() && (#[trigger] stack[j]).0 == c.0 && stack[j].1 == c.1
}

/// The tile is marked or waits.
pub open spec fn met(seen: Seq<bool>, stack: Seq<(u8, u8)>, c: (int, int)) -> bool {
    seen[tile_index(c.0, c.1)] || stacked(stack, c)
}

/// Every waiting tile is in the room and has a walk to it.
pub open spec fn all_walked(walls: Seq<bool>, from: (int, int), stack: Seq<(u8, u8)>) -> bool {
    forall|j: int|
        0 <= j < stack.len() ==> (#[trigger] stack[j]).0 < 50 && stack[j].1 < 50 && connects(
            walls,
            from,
            (stack[j].0 as int, stack[j].1 as int),
        )
}

/// What holds of a flood in progress.
pub open spec fn flooding(
    walls: Seq<bool>,
    from: (int, int),
    to: (int, int),
    seen: Seq<bool>,
    stack: Seq<(u8, u8)>,
) -> bool {
    &&& walls.len() == TILES
    &&& seen.len() == TILES
    &&& in_room(from.0, from.1)
    &&& met(seen, stack, from)
    &&& in_room(to.0, to.1) ==> !seen[tile_index(to.0, to.1)]
    &&& all_walked(walls, from, stack)
    &&& forall|a: (int, int), b: (int, int)|
        #![trigger adjoin(a, b)]
        in_room(a.0, a.1) && seen[tile_index(a.0, a.1)] && adjoin(a, b) && passable(walls, b)
            ==> met(seen, stack, b)
}

fn push_step(
    walls: &Vec<bool>,
    seen: &Vec<bool>,
    stack: &mut Vec<(u8, u8)>,
    x: i32,
    y: i32,
    Ghost(from): Ghost<(int, int)>,
    Ghost(at): Ghost<(int, int)>,
)
    requires
        walls@.len() == TILES,
        seen@.len() == TILES,
        -1 <= x <= 50,
        -1 <= y <= 50,
        adjoin(at, (x as int, y as int)),
        connects(walls@, from, at),
        all_walked(walls@, from, old(stack)@),
    ensures
        all_walked(walls@, from, final(stack)@),
        forall|c: (int, int)| stacked(old(stack)@, c) ==> #[trigger] stacked(final(stack)@, c),
        passable(walls@, (x as int, y as int)) ==> met(
            seen@,
            final(stack)@,
            (x as int, y as int),
        ),
        final(stack)@.len() <= old(stack)@.len() + 1,
{
    let ghost before = stack@;
    if 0 <= x && x < 50 && 0 <= y && y < 50 {
        let i: usize = y as usize * 50 + x as usize;
        if !walls[i] && !seen[i] {
            stack.push((x as u8, y as u8));
            proof {
                lemma_walk_on(walls@, from, at, (x as int, y as int));
            }
            assert(stack@[before.len() as int] == (x as u8, y as u8));
            assert(stacked(stack@, (x as int, y as int)));
            assert forall|c: (int, int)| stacked(before, c) implies #[trigger] stacked(
                stack@,
                c,
            ) by {
                let j = choose|j: int|
                    0 <= j < before.len() && (#[trigger] before[j]).0 == c.0 && before[j].1 == c.1;
                assert(stack@[j] == before[j]);
            }
        }
    }
}

/// Whether there is a walk from a tile of the room to another tile.
fn connected_inside(walls: &Vec<bool>, from: (u8, u8), to: (u8, u8)) -> (r: bool)
    requires
        walls@.len() == TILES,
        from.0 < 50,
        from.1 < 50,
    ensures
        r == connects(walls@, (from.0 as int, from.1 as int), (to.0 as int, to.1 as int)),
{
    let ghost f = (from.0 as int, from.1 as int);
    let ghost t = (to.0 as int, to.1 as int);
    let mut seen: Vec<bool> = no_flags(TILES);
    let mut stack: Vec<(u8, u8)> = Vec::new();
    stack.push(from);
    proof {
        assert(is_walk(walls@, seq![f]));
        assert(seq![f][0] == f && seq![f].last() == f);
        assert(stack@[0] == from);
        assert(stacked(stack@, f));
    }
    while stack.len() > 0
        invariant
            f == (from.0 as int, from.1 as int),
            t == (to.0 as int, to.1 as int),
            flooding(walls@, f, t, seen@, stack@),
        decreases TILES - count_true(seen@), stack@.len(),
    {
        let ghost stack0 = stack@;
        let ghost seen0 = seen@;
        let c: (u8, u8) = stack.pop().unwrap();
        let ghost at = (c.0 as int, c.1 as int);
        assert(stack0[stack0.len() - 1] == c);
        assert(forall|j: int| 0 <= j < stack@.len() ==> #[trigger] stack@[j] == stack0[j]);
        if c.0 == to.0 && c.1 == to.1 {
            return true;
        }
        assert forall|d: (int, int)| d != at && stacked(stack0, d) implies #[trigger] stacked(
            stack@,
            d,
        ) by {
            let j = choose|j: int|
                0 <= j < stack0.len() && (#[trigger] stack0[j]).0 == d.0 && stack0[j].1 == d.1;
            assert(j < stack@.len());
            assert(stack@[j] == stack0[j]);
        }
        let i: usize = c.1 as usize * 50 + c.0 as usize;
        if !seen[i] {
            proof {
                lemma_count_set(seen@, i as int, true);
                lemma_count_bound(seen@.update(i as int, true));
            }
            seen.set(i, true);
            push_step(walls, &seen, &mut stack, c.0 as i32, c.1 as i32 + 1, Ghost(f), Ghost(at));
            push_step(walls, &seen, &mut stack, c.0 as i32, c.1 as i32 - 1, Ghost(f), Ghost(at));
            push_step(walls, &seen, &mut stack, c.0 as i32 + 1, c.1 as i32, Ghost(f), Ghost(at));
            push_step(walls, &seen, &mut stack, c.0 as i32 - 1, c.1 as i32, Ghost(f), Ghost(at));
            assert forall|a: (int, int), b: (int, int)|
                #![trigger adjoin(a, b)]
                in_room(a.0, a.1) && seen@[tile_index(a.0, a.1)] && adjoin(a, b) && passable(
                    walls@,
                    b,
                ) implies met(seen@, stack@, b) by {
                if tile_index(a.0, a.1) == i {
                    assert(a == at);
                    assert(b == (at.0, at.1 + 1) || b == (at.0, at.1 - 1) || b == (
                        at.0 + 1,
                        at.1,
                    ) || b == (at.0 - 1, at.1));
                } else {
                    assert(seen0[tile_index(a.0, a.1)]);
                    assert(met(seen0, stack0, b));
                    if b == at {
                        assert(seen@[tile_index(b.0, b.1)]);
                    }
                }
            }
        } else {
            assert forall|a: (int, int), b: (int, int)|
                #![trigger adjoin(a, b)]
                in_room(a.0, a.1) && seen@[tile_index(a.0, a.1)] && adjoin(a, b) && passable(
                    walls@,
                    b,
                ) implies met(seen@, stack@, b) by {
                assert(met(seen0, stack0, b));
            }
        }
    }
    proof {
        if connects(walls@, f, t) {
            let path = choose|path: Seq<(int, int)>|
                #[trigger] is_walk(walls@, path) && path[0] == f && path.last() == t;
            assert(seen@[tile_index(f.0, f.1)]);
            lemma_walk_stays(walls@, seen@, path, path.len() - 1);
        }
    }
    false
}

/// From a tile outside the room a walk goes on only over the one tile of the room that
/// adjoins it.
proof fn lemma_walk_enters(
    walls: Seq<bool>,
    from: (int, int),
    door: Option<(int, int)>,
    to: (int, int),
)
    requires
        from != to,
        forall|c: (int, int)|
            #![trigger adjoin(from, c)]
            adjoin(from, c) && passable(walls, c) ==> door == Some(c),
        door matches Some(d) ==> adjoin(from, d) && passable(walls, d),
    ensures
        connects(walls, from, to) <==> door is Some && connects(walls, door->0, to),
{
    if connects(walls, from, to) {
        let path = choose|path: Seq<(int, int)>|
            #[trigger] is_walk(walls, path) && path[0] == from && path.last() == to;
        assert(path.len() > 1);
        assert(adjoin(path[1 - 1], path[1]) && passable(walls, path[1]));
        let rest = path.drop_first();
        assert forall|i: int| 0 < i < rest.len() implies passable(walls, #[trigger] rest[i]) by {
            assert(rest[i] == path[i + 1]);
        }
        assert forall|i: int| 0 < i < rest.len() implies adjoin(rest[i - 1], #[trigger] rest[i]) by {
            assert(rest[i] == path[i + 1]);
            assert(adjoin(path[i + 1 - 1], path[i + 1]));
        }
        assert(is_walk(walls, rest) && rest[0] == door->0 && rest.last() == to);
    }
    if door is Some && connects(walls, door->0, to) {
        let path = choose|path: Seq<(int, int)>|
            #[trigger] is_walk(walls, path) && path[0] == door->0 && path.last() == to;
        let all = seq![from] + path;
        assert forall|i: int| 0 < i < all.len() implies passable(walls, #[trigger] all[i]) by {
            if i > 1 {
                assert(all[i] == path[i - 1]);
            }
        }
        assert forall|i: int| 0 < i < all.len() implies adjoin(all[i - 1], #[trigger] all[i]) by {
            if i > 1 {
                assert(all[i] == path[i - 1]);
                assert(adjoin(path[i - 1 - 1], path[i - 1]));
            }
        }
        assert(is_walk(walls, all) && all[0] == from && all.last() == to);
    }
}

/// Whether there is a walk between two tiles. A walk may start outside the room; it goes
/// on inside.
pub fn connected(walls: &Vec<bool>, from: (u8, u8), to: (u8, u8)) -> (r: bool)
    requires
        walls@.len() == TILES,
    ensures
        r == connects(walls@, (from.0 as int, from.1 as int), (to.0 as int, to.1 as int)),
{
    if from.0 < 50 && from.1 < 50 {
        return connected_inside(walls, from, to);
    }
    let ghost f = (from.0 as int, from.1 as int);
    let ghost t = (to.0 as int, to.1 as int);
    if from.0 == to.0 && from.1 == to.1 {
        assert(is_walk(walls@, seq![f]) && seq![f][0] == f && seq![f].last() == t);
        return true;
    }
    let door: Option<(u8, u8)> = if from.0 == 50 && from.1 < 50 {
        Some((49, from.1))
    } else if from.1 == 50 && from.0 < 50 {
        Some((from.0, 49))
    } else {
        None
    };
    match door {
        Some(d) if !walls[d.1 as usize * 50 + d.0 as usize] => {
            proof {
                lemma_walk_enters(walls@, f, Some((d.0 as int, d.1 as int)), t);
            }
            connected_inside(walls, d, to)
        },
        _ => {
            proof {
                lemma_walk_enters(walls@, f, None, t);
            }
            false
        },
    }
}

/// The clearings around a stronghold: its footprint, the entry, and with a staging
/// room its centre.
pub open spec fn clearings_for(core: (u8, u8), entry: (u8, u8), multi_room: bool) -> Seq<Clearing> {
    let two = seq![
        Clearing { x: core.0, y: core.1, reach: 4 },
        Clearing { x: entry.0, y: entry.1, reach: 2 },
    ];
    if multi_room {
        two.push(Clearing { x: 25, y: 25, reach: 2 })
    } else {
        two
    }
}

/// The row is open at both borders, and leads from the staging centre to the core.
#[verifier::opaque]
pub open spec fn crossing_at(walls: Seq<bool>, core: (u8, u8), y: int) -> bool {
    &&& !walls[tile_index(0, y)]
    &&& !walls[tile_index(49, y)]
    &&& connects(walls, (25, 25), (0, y))
    &&& connects(walls, (49, y), (core.0 as int, core.1 as int))
}

/// The approach is open: from the entry to the core, or across the border.
pub open spec fn approachable(
    walls: Seq<bool>,
    core: (u8, u8),
    entry: (u8, u8),
    multi_room: bool,
) -> bool {
    if multi_room {
        exists|y: int| 1 <= y < 49 && #[trigger] crossing_at(walls, core, y)
    } else {
        connects(walls, (entry.0 as int, entry.1 as int), (core.0 as int, core.1 as int))
    }
}

/// The terrain that a probe leaves: its walls carved, its swamps where no wall is.
pub open spec fn probed(
    gen: TerrainView,
    core: (u8, u8),
    entry: (u8, u8),
    multi_room: bool,
) -> TerrainView {
    let walls = carved(gen.walls, clearings_for(core, entry, multi_room));
    TerrainView { walls, swamps: Seq::new(TILES as nat, |i: int| gen.swamps[i] && !walls[i]) }
}

/// What the scan does with a probe.
#[derive(Debug)]
pub enum ProbeStep {
    /// The approach is open: the terrain to use.
    Accepted(CombatTerrain),
    /// It is not: generate this seed next.
    Next(u32),
    /// All seeds are walled off.
    Exhausted,
}

/// A scan over seeds.
#[derive(Clone, Copy, Debug)]
pub struct ChokepointScan {
    pub seed: u32,
    pub tried: u32,
    pub core: (u8, u8),
    pub entry: (u8, u8),
    pub multi_room: bool,
}

fn clear_ground(gen: &CombatTerrain, clearings: &Vec<Clearing>) -> (r: Vec<bool>)
    requires
        gen@.wf(),
        clearings@.len() <= 3,
    ensures
        r@ == carved(gen@.walls, clearings@),
{
    let ghost want = carved(gen@.walls, clearings@);
    let mut out: Vec<bool> = Vec::new();
    let mut i: usize = 0;
    while i < TILES
        invariant
            i <= TILES,
            gen@.wf(),
            want == carved(gen@.walls, clearings@),
            out@ == want.take(i as int),
        decreases TILES - i,
    {
        let x: i32 = (i % 50) as i32;
        let y: i32 = (i / 50) as i32;
        let mut open: bool = false;
        let mut k: usize = 0;
        while k < clearings.len()
            invariant
                k <= clearings@.len(),
                0 <= x < 50,
                0 <= y < 50,
                x == i as int % 50,
                y == i as int / 50,
                open == !(forall|j: int|
                    0 <= j < k ==> !clears(#[trigger] clearings@[j], i as int)),
            decreases clearings.len() - k,
        {
            let c: Clearing = clearings[k];
            let dx: i32 = x - c.x as i32;
            let dy: i32 = y - c.y as i32;
            let reach: i32 = c.reach as i32;
            if -reach <= dx && dx <= reach && -reach <= dy && dy <= reach {
                open = true;
                assert(clears(clearings@[k as int], i as int));
            }
            k = k + 1;
        }
        assert(tile_index(x as int, y as int) == i);
        out.push(gen.is_wall(x as u8, y as u8) && !open);
        i = i + 1;
        assert(out@ =~= want.take(i as int));
    }
    assert(out@ =~= want);
    out
}

fn is_crossing(walls: &Vec<bool>, core: (u8, u8), y: u8) -> (r: bool)
    requires
        walls@.len() == TILES,
        y < 50,
    ensures
        r == crossing_at(walls@, core, y as int),
{
    proof {
        reveal(crossing_at);
    }
    let row: usize = y as usize * 50;
    if walls[row] || walls[row + 49] {
        return false;
    }
    connected(walls, (25, 25), (0, y)) && connected(walls, (49, y), core)
}

fn is_approachable(walls: &Vec<bool>, core: (u8, u8), entry: (u8, u8), multi_room: bool) -> (r:
    bool)
    requires
        walls@.len() == TILES,
    ensures
        r == approachable(walls@, core, entry, multi_room),
{
    if !multi_room {
        return connected(walls, entry, core);
    }
    let mut y: u8 = 1;
    while y < 49
        invariant
            1 <= y <= 49,
            multi_room,
            walls@.len() == TILES,
            forall|k: int| 1 <= k < y ==> !#[trigger] crossing_at(walls@, core, k),
        decreases 49 - y,
    {
        if is_crossing(walls, core, y) {
            return true;
        }
        y = y + 1;
    }
    false
}

impl ChokepointScan {
    pub open spec fn wf(self) -> bool {
        &&& self.seed + PROBES <= u32::MAX
        &&& self.tried < PROBES
    }

    /// The seed to generate now.
    pub open spec fn probe(self) -> u32 {
        (self.seed + self.tried) as u32
    }

    /// A scan at its first seed.
    pub fn start(seed: u32, core: (u8, u8), entry: (u8, u8), multi_room: bool) -> (r: ChokepointScan)
        requires
            seed + PROBES <= u32::MAX,
        ensures
            r.wf(),
            r.probe() == seed,
            r.seed == seed,
            r.core == core,
            r.entry == entry,
            r.multi_room == multi_room,
    {
        ChokepointScan { seed, tried: 0, core, entry, multi_room }
    }

    /// The scan for a stronghold: its core at the centre, the entry at the eastern edge.
    pub fn of_stronghold(seed: u32, multi_room: bool) -> (r: ChokepointScan)
        requires
            seed + PROBES <= u32::MAX,
        ensures
            r.wf(),
            r.probe() == seed,
            r == (ChokepointScan { seed, tried: 0, core: (25, 25), entry: (46, 25), multi_room }),
    {
        ChokepointScan { seed, tried: 0, core: (25, 25), entry: (46, 25), multi_room }
    }

    /// The scan for a border gauntlet: its core lies behind the western border.
    pub fn of_gauntlet(seed: u32) -> (r: ChokepointScan)
        requires
            seed + PROBES <= u32::MAX,
        ensures
            r.wf(),
            r.probe() == seed,
            r == (ChokepointScan {
                seed,
                tried: 0,
                core: (10, 25),
                entry: (46, 25),
                multi_room: true,
            }),
    {
        ChokepointScan { seed, tried: 0, core: (10, 25), entry: (46, 25), multi_room: true }
    }

    /// Takes the terrain generated for the current seed: the first whose approach is
    /// open once the clearings are made is accepted.
    pub fn offer(&mut self, gen: &CombatTerrain) -> (r: ProbeStep)
        requires
            old(self).wf(),
            gen@.wf(),
        ensures
            ({
                let t = probed(gen@, old(self).core, old(self).entry, old(self).multi_room);
                let open = approachable(
                    t.walls,
                    old(self).core,
                    old(self).entry,
                    old(self).multi_room,
                );
                &&& open ==> (r matches ProbeStep::Accepted(a) && a@ == t && a@.wf())
                    && *final(self) == *old(self)
                &&& !open && old(self).tried + 1 < PROBES ==> r == ProbeStep::Next(
                    (old(self).probe() + 1) as u32,
                ) && final(self).wf() && final(self).probe() == old(self).probe() + 1
                &&& !open && old(self).tried + 1 == PROBES ==> r is Exhausted
            }),
            final(self).seed == old(self).seed,
            final(self).core == old(self).core,
            final(self).entry == old(self).entry,
            final(self).multi_room == old(self).multi_room,
    {
        let mut clearings: Vec<Clearing> = Vec::new();
        clearings.push(Clearing { x: self.core.0, y: self.core.1, reach: 4 });
        clearings.push(Clearing { x: self.entry.0, y: self.entry.1, reach: 2 });
        if self.multi_room {
            clearings.push(Clearing { x: 25, y: 25, reach: 2 });
        }
        assert(clearings@ =~= clearings_for(self.core, self.entry, self.multi_room));
        let walls: Vec<bool> = clear_ground(gen, &clearings);
        if is_approachable(&walls, self.core, self.entry, self.multi_room) {
            let ghost t = probed(gen@, self.core, self.entry, self.multi_room);
            let a: CombatTerrain = rebuilt(&walls, gen);
            assert(a@ =~= t);
            return ProbeStep::Accepted(a);
        }
        if self.tried + 1 < PROBES {
            self.tried = self.tried + 1;
            ProbeStep::Next(self.seed + self.tried)
        } else {
            ProbeStep::Exhausted
        }
    }
}

fn rebuilt(walls: &Vec<bool>, gen: &CombatTerrain) -> (t: CombatTerrain)
    requires
        walls@.len() == TILES,
        gen@.wf(),
    ensures
        t@.wf(),
        t@.walls == walls@,
        t@.swamps == Seq::new(TILES as nat, |i: int| gen@.swamps[i] && !walls@[i]),
{
    let mut t: CombatTerrain = CombatTerrain::open_room();
    let mut i: usize = 0;
    while i < TILES
        invariant
            i <= TILES,
            walls@.len() == TILES,
            gen@.wf(),
            t@.wf(),
            forall|k: int| 0 <= k < i ==> #[trigger] t@.walls[k] == walls@[k],
            forall|k: int|
                0 <= k < i ==> #[trigger] t@.swamps[k] == (gen@.swamps[k] && !walls@[k]),
            forall|k: int| i <= k < TILES ==> !(#[trigger] t@.swamps[k]),
        decreases TILES - i,
    {
        let x: u8 = (i % 50) as u8;
        let y: u8 = (i / 50) as u8;
        assert(tile_index(x as int, y as int) == i);
        t.set_wall(x, y, walls[i]);
        t.set_swamp(x, y, gen.is_swamp(x, y) && !walls[i]);
        i = i + 1;
    }
    assert(t@.walls =~= walls@);
    assert(t@.swamps =~= Seq::new(TILES as nat, |k: int| gen@.swamps[k] && !walls@[k]));
    t
}

/// An accepted terrain keeps its clearings open and its approach connected.
pub proof fn accepted_terrain_is_open(
    gen: TerrainView,
    core: (u8, u8),
    entry: (u8, u8),
    multi_room: bool,
    i: int,
    k: int,
)
    requires
        gen.wf(),
        0 <= i < TILES,
        0 <= k < clearings_for(core, entry, multi_room).len(),
        clears(clearings_for(core, entry, multi_room)[k], i),
    ensures
        !probed(gen, core, entry, multi_room).walls[i],
{
}

// ── What a scan goes by ────────────────────────────────────────────────────

/// A clearing opens the square about its centre and nothing else; what it does not open stays
/// as it was.
pub proof fn a_clearing_opens_its_square(walls: Seq<bool>, c: Seq<Clearing>, x: int, y: int)
    requires
        0 <= x < 50,
        0 <= y < 50,
        walls.len() == TILES,
    ensures
        ({
            let i = y * 50 + x;
            let touched = exists|k: int|
                0 <= k < c.len() && x - (#[trigger] c[k]).x <= c[k].reach && c[k].x - x
                    <= c[k].reach && y - c[k].y <= c[k].reach && c[k].y - y <= c[k].reach;
            &&& touched ==> !carved(walls, c)[i]
            &&& !touched ==> carved(walls, c)[i] == walls[i]
        }),
{
    let i = y * 50 + x;
    assert(i % 50 == x && i / 50 == y);
    let touched = exists|k: int|
        0 <= k < c.len() && x - (#[trigger] c[k]).x <= c[k].reach && c[k].x - x <= c[k].reach && y
            - c[k].y <= c[k].reach && c[k].y - y <= c[k].reach;
    if touched {
        let k = choose|k: int|
            0 <= k < c.len() && x - (#[trigger] c[k]).x <= c[k].reach && c[k].x - x <= c[k].reach
                && y - c[k].y <= c[k].reach && c[k].y - y <= c[k].reach;
        assert(clears(c[k], i));
    } else {
        assert forall|k: int| 0 <= k < c.len() implies !clears(#[trigger] c[k], i) by {}
    }
}

/// The core's ground is cleared four tiles about it, the entry's two, and with a staging room
/// two about its centre.
pub proof fn the_ground_is_cleared(core: (u8, u8), entry: (u8, u8), multi_room: bool)
    ensures
        ({
            let c = clearings_for(core, entry, multi_room);
            &&& c.len() == if multi_room {
                3nat
            } else {
                2nat
            }
            &&& (c[0].x, c[0].y) == core && c[0].reach == 4
            &&& (c[1].x, c[1].y) == entry && c[1].reach == 2
            &&& multi_room ==> c[2] == (Clearing { x: 25, y: 25, reach: 2 })
        }),
{
}

/// A tile steps to the four that share an edge with it, never across a corner, and a step
/// goes both ways.
pub proof fn steps_share_an_edge(a: (int, int), b: (int, int))
    ensures
        adjoin(a, b) == adjoin(b, a),
        adjoin(a, b) ==> a != b,
        adjoin(a, b) ==> (a.0 == b.0 || a.1 == b.1),
        adjoin(a, (a.0 + 1, a.1)) && adjoin(a, (a.0 - 1, a.1)) && adjoin(a, (a.0, a.1 + 1))
            && adjoin(a, (a.0, a.1 - 1)),
        adjoin(a, b) ==> b == (a.0 + 1, a.1) || b == (a.0 - 1, a.1) || b == (a.0, a.1 + 1) || b
            == (a.0, a.1 - 1),
        !adjoin(a, (a.0 + 1, a.1 + 1)),
{
}

/// A walk reaches its own start, goes on over every passable tile next to one that it
/// reaches, and reaches no wall but its start.
pub proof fn a_walk_reaches_what_is_open(walls: Seq<bool>, a: (int, int), b: (int, int))
    ensures
        connects(walls, a, a),
        adjoin(a, b) && passable(walls, b) ==> connects(walls, a, b),
        connects(walls, a, b) && a != b ==> passable(walls, b),
{
    assert(is_walk(walls, seq![a]) && seq![a][0] == a && seq![a].last() == a);
    if adjoin(a, b) && passable(walls, b) {
        lemma_walk_on(walls, a, a, b);
    }
    if connects(walls, a, b) && a != b {
        let path = choose|path: Seq<(int, int)>|
            #[trigger] is_walk(walls, path) && path[0] == a && path.last() == b;
        assert(path.len() > 1);
        assert(passable(walls, path[path.len() - 1]));
    }
}

/// A row is a crossing where it is open at both borders, leads from the staging centre to the
/// western border, and from the eastern one to the core.
pub proof fn a_crossing_is_open_on_both_sides(walls: Seq<bool>, core: (u8, u8), y: int)
    requires
        0 <= y < 50,
    ensures
        crossing_at(walls, core, y) <==> !walls[50 * y] && !walls[50 * y + 49] && connects(
            walls,
            (25, 25),
            (0, y),
        ) && connects(walls, (49, y), (core.0 as int, core.1 as int)),
{
    reveal(crossing_at);
    assert(tile_index(0, y) == 50 * y && tile_index(49, y) == 50 * y + 49);
}

/// In two rooms any one crossing inside the borders makes the core approachable; in one room
/// only a walk from the entry does.
pub proof fn an_approach_leads_to_the_core(
    walls: Seq<bool>,
    core: (u8, u8),
    entry: (u8, u8),
    y: int,
)
    ensures
        approachable(walls, core, entry, false) <==> connects(
            walls,
            (entry.0 as int, entry.1 as int),
            (core.0 as int, core.1 as int),
        ),
        1 <= y <= 48 && crossing_at(walls, core, y) ==> approachable(walls, core, entry, true),
        (forall|r: int| 1 <= r <= 48 ==> !#[trigger] crossing_at(walls, core, r))
            ==> !approachable(walls, core, entry, true),
{
}

/// A probe keeps a swamp exactly where no wall is left.
pub proof fn a_probe_keeps_its_swamps(
    gen: TerrainView,
    core: (u8, u8),
    entry: (u8, u8),
    multi_room: bool,
    i: int,
)
    requires
        0 <= i < TILES,
    ensures
        ({
            let p = probed(gen, core, entry, multi_room);
            &&& p.walls[i] ==> gen.walls[i] && !p.swamps[i]
            &&& !p.walls[i] ==> p.swamps[i] == gen.swamps[i]
        }),
{
}

/// Thirty-two seeds in a row are tried, from the first one on.
pub proof fn a_scan_tries_seeds_in_a_row(s: ChokepointScan)
    requires
        s.wf(),
    ensures
        s.tried <= 31,
        s.probe() == s.seed + s.tried,
        s.seed <= s.probe() < s.seed + 32,
{
}

} // verus!
