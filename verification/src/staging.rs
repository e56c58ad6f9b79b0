//! Where a squad is put down: on the staging tiles of an objective, or clustered at
//! its entry with one creep to a tile.

use crate::colony::lemma_filter_take;
use crate::position::{abs_of, max_of, WPos};
use crate::terrain_import::{in_room, CombatTerrain, TerrainView};
use crate::world::SimCreep;
use vstd::prelude::*;

verus! {

/// What a member is for.
#[derive(Clone, Copy, Debug, PartialEq, Eq, Structural)]
pub enum SquadRole {
    Dismantler,
    Healer,
    RangedDps,
    Other,
}

/// A slot of a composition: its role, and whether a body could be built for it.
#[derive(Clone, Copy, Debug, PartialEq, Eq, Structural)]
pub struct FieldSlot {
    pub role: SquadRole,
    pub buildable: bool,
}

/// The first `n` slots put down, with the counts of tiles used up front and behind.
#[verifier::ext_equal]
pub struct Placing {
    pub tiles: Seq<WPos>,
    pub front: nat,
    pub support: nat,
}

/// The first `n` slots put down in order: dismantlers on the front tiles, healers on
/// the support tiles. `None` as soon as a body cannot be built, a role has no place,
/// or the tiles of a role run out.
pub open spec fn placed(
    front: Seq<WPos>,
    support: Seq<WPos>,
    slots: Seq<FieldSlot>,
    n: int,
) -> Option<Placing>
    decreases n,
{
    if n <= 0 {
        Some(Placing { tiles: seq![], front: 0, support: 0 })
    } else {
        match placed(front, support, slots, n - 1) {
            None => None,
            Some(p) => {
                let s = slots[n - 1];
                if !s.buildable {
                    None
                } else if s.role == SquadRole::Dismantler && p.front < front.len() {
                    Some(
                        Placing {
                            tiles: p.tiles.push(front[p.front as int]),
                            front: p.front + 1,
                            ..p
                        },
                    )
                } else if s.role == SquadRole::Healer && p.support < support.len() {
                    Some(
                        Placing {
                            tiles: p.tiles.push(support[p.support as int]),
                            support: p.support + 1,
                            ..p
                        },
                    )
                } else {
                    None
                }
            },
        }
    }
}

/// Puts a squad down on staging tiles: one tile per slot, in order.
pub fn place_squad(front: &Vec<WPos>, support: &Vec<WPos>, slots: &Vec<FieldSlot>) -> (r: Option<
    Vec<WPos>,
>)
    ensures
        match placed(front@, support@, slots@, slots@.len() as int) {
            Some(p) => r matches Some(t) && t@ == p.tiles,
            None => r is None,
        },
{
    let mut tiles: Vec<WPos> = Vec::new();
    let mut d: usize = 0;
    let mut h: usize = 0;
    let mut i: usize = 0;
    while i < slots.len()
        invariant
            i <= slots@.len(),
            d <= front@.len(),
            h <= support@.len(),
            placed(front@, support@, slots@, i as int) == Some(
                (Placing { tiles: tiles@, front: d as nat, support: h as nat }),
            ),
        decreases slots.len() - i,
    {
        let s: FieldSlot = slots[i];
        let fits: bool = s.buildable && ((s.role == SquadRole::Dismantler && d < front.len()) || (
        s.role == SquadRole::Healer && h < support.len()));
        if !fits {
            proof {
                lemma_placed_none(front@, support@, slots@, i as int + 1, slots@.len() as int);
            }
            return None;
        }
        if s.role == SquadRole::Dismantler {
            tiles.push(front[d]);
            d = d + 1;
        } else {
            tiles.push(support[h]);
            h = h + 1;
        }
        i = i + 1;
    }
    Some(tiles)
}

proof fn lemma_placed_none(
    front: Seq<WPos>,
    support: Seq<WPos>,
    slots: Seq<FieldSlot>,
    k: int,
    n: int,
)
    requires
        0 <= k <= n,
        placed(front, support, slots, k) is None,
    ensures
        placed(front, support, slots, n) is None,
    decreases n - k,
{
    if k < n {
        lemma_placed_none(front, support, slots, k, n - 1);
    }
}

/// A squad that is put down has one tile per slot, and no two members share one
/// where the staging tiles are distinct.
pub proof fn placement_fills_every_slot(
    front: Seq<WPos>,
    support: Seq<WPos>,
    slots: Seq<FieldSlot>,
    n: int,
)
    requires
        0 <= n <= slots.len(),
        (front + support).no_duplicates(),
        placed(front, support, slots, n) is Some,
    ensures
        placed(front, support, slots, n)->0.tiles.len() == n,
        placed(front, support, slots, n)->0.tiles.no_duplicates(),
        placed(front, support, slots, n)->0.front <= front.len(),
        placed(front, support, slots, n)->0.support <= support.len(),
        forall|i: int|
            0 <= i < n ==> staged(
                #[trigger] placed(front, support, slots, n)->0.tiles[i],
                front,
                support,
                placed(front, support, slots, n)->0,
            ),
    decreases n,
{
    if n > 0 {
        placement_fills_every_slot(front, support, slots, n - 1);
        let before = placed(front, support, slots, n - 1)->0;
        let after = placed(front, support, slots, n)->0;
        let all = front + support;
        let t = after.tiles.last();
        let at: int = if slots[n - 1].role == SquadRole::Dismantler {
            before.front as int
        } else {
            (front.len() + before.support) as int
        };
        assert(all[at] == t);
        assert forall|i: int| 0 <= i < n - 1 implies before.tiles[i] != t && staged(
            #[trigger] after.tiles[i],
            front,
            support,
            after,
        ) by {
            assert(after.tiles[i] == before.tiles[i]);
            assert(staged(before.tiles[i], front, support, before));
            let j = choose|j: int|
                0 <= j < all.len() && #[trigger] all[j] == before.tiles[i] && used(
                    j,
                    front.len() as int,
                    before,
                );
            assert(j != at);
            assert(used(j, front.len() as int, after));
            assert(all[j] == after.tiles[i]);
        }
        assert(used(at, front.len() as int, after));
        assert(staged(after.tiles[n - 1], front, support, after));
    }
}

/// The position counts among those used up.
pub open spec fn used(j: int, fronts: int, p: Placing) -> bool {
    j < p.front || (fronts <= j < fronts + p.support)
}

/// The tile is one of the staging tiles used up.
pub open spec fn staged(t: WPos, front: Seq<WPos>, support: Seq<WPos>, p: Placing) -> bool {
    exists|j: int|
        0 <= j < (front + support).len() && #[trigger] (front + support)[j] == t && used(
            j,
            front.len() as int,
            p,
        )
}

/// The nine tiles on and around an entry.
pub open spec fn near_offsets() -> Seq<(int, int)> {
    seq![
        (0int, 0int),
        (1int, 0int),
        (0int, 1int),
        (-1int, 0int),
        (0int, -1int),
        (1int, 1int),
        (-1int, 1int),
        (1int, -1int),
        (-1int, -1int),
    ]
}

/// Offsets at exactly this distance.
pub open spec fn at_distance(r: int) -> spec_fn((int, int)) -> bool {
    |o: (int, int)| max_of(abs_of(o.0), abs_of(o.1)) == r
}

/// The square of offsets up to a distance, row by row.
pub open spec fn square(r: int) -> Seq<(int, int)> {
    Seq::new(
        ((2 * r + 1) * (2 * r + 1)) as nat,
        |k: int| (k % (2 * r + 1) - r, k / (2 * r + 1) - r),
    )
}

/// The ring of offsets at a distance, row by row.
pub open spec fn ring(r: int) -> Seq<(int, int)> {
    square(r).filter(at_distance(r))
}

/// The offsets that are tried, out to a distance.
pub open spec fn tried_offsets(reach: int) -> Seq<(int, int)>
    decreases reach,
{
    if reach < 2 {
        near_offsets()
    } else {
        tried_offsets(reach - 1) + ring(reach)
    }
}

/// The tile can be stood on: in the room, no wall, no creep on it, none chosen
/// before.
pub open spec fn standable(
    t: TerrainView,
    occupied: Seq<(u8, u8)>,
    chosen: Seq<(u8, u8)>,
    x: int,
    y: int,
) -> bool {
    &&& in_room(x, y)
    &&& !t.wall_at(x, y)
    &&& !occupied.contains((x as u8, y as u8))
    &&& !chosen.contains((x as u8, y as u8))
}

/// The tiles chosen after the first `n` offsets were tried, at most `need`.
pub open spec fn chosen_tiles(
    t: TerrainView,
    occupied: Seq<(u8, u8)>,
    entry: (u8, u8),
    offsets: Seq<(int, int)>,
    need: nat,
    n: int,
) -> Seq<(u8, u8)>
    decreases n,
{
    if n <= 0 {
        seq![]
    } else {
        let before = chosen_tiles(t, occupied, entry, offsets, need, n - 1);
        let x = entry.0 + offsets[n - 1].0;
        let y = entry.1 + offsets[n - 1].1;
        if before.len() < need && standable(t, occupied, before, x, y) {
            before.push((x as u8, y as u8))
        } else {
            before
        }
    }
}

/// The tiles chosen around an entry.
pub open spec fn entry_tiles(
    t: TerrainView,
    occupied: Seq<(u8, u8)>,
    entry: (u8, u8),
    need: nat,
    reach: int,
) -> Seq<(u8, u8)> {
    let offsets = tried_offsets(reach);
    chosen_tiles(t, occupied, entry, offsets, need, offsets.len() as int)
}

/// No two creeps share a tile: what is chosen is distinct, open, and free of the
/// creeps that stand there already.
pub proof fn entry_tiles_are_distinct_and_free(
    t: TerrainView,
    occupied: Seq<(u8, u8)>,
    entry: (u8, u8),
    offsets: Seq<(int, int)>,
    need: nat,
    n: int,
)
    requires
        0 <= n <= offsets.len(),
    ensures
        chosen_tiles(t, occupied, entry, offsets, need, n).no_duplicates(),
        chosen_tiles(t, occupied, entry, offsets, need, n).len() <= need,
        forall|i: int|
            0 <= i < chosen_tiles(t, occupied, entry, offsets, need, n).len() ==> {
                let c = #[trigger] chosen_tiles(t, occupied, entry, offsets, need, n)[i];
                &&& in_room(c.0 as int, c.1 as int)
                &&& !t.wall_at(c.0 as int, c.1 as int)
                &&& !occupied.contains(c)
            },
    decreases n,
{
    if n > 0 {
        entry_tiles_are_distinct_and_free(t, occupied, entry, offsets, need, n - 1);
        let before = chosen_tiles(t, occupied, entry, offsets, need, n - 1);
        let after = chosen_tiles(t, occupied, entry, offsets, need, n);
        if after.len() > before.len() {
            assert forall|i: int, j: int| 0 <= i < j < after.len() implies after[i] != after[j] by {
                if j == before.len() {
                    assert(before.contains(before[i]));
                }
            }
        }
    }
}

/// The creeps' tiles within a room.
pub open spec fn occupied_in(creeps: Seq<SimCreep>, room: (i32, i32), n: int) -> Seq<(u8, u8)>
    decreases n,
{
    if n <= 0 {
        seq![]
    } else {
        let before = occupied_in(creeps, room, n - 1);
        let c = creeps[n - 1];
        if c.pos.room_of() == (room.0 as int, room.1 as int) {
            before.push(((c.pos.wx as int % 50) as u8, (c.pos.wy as int % 50) as u8))
        } else {
            before
        }
    }
}

/// The tiles that a room's creeps stand on.
pub fn occupied_tiles(creeps: &Vec<SimCreep>, room: (i32, i32)) -> (r: Vec<(u8, u8)>)
    requires
        -128 <= room.0 < 128,
        -128 <= room.1 < 128,
    ensures
        r@ == occupied_in(creeps@, room, creeps@.len() as int),
{
    let mut out: Vec<(u8, u8)> = Vec::new();
    let mut i: usize = 0;
    while i < creeps.len()
        invariant
            i <= creeps@.len(),
            -128 <= room.0 < 128,
            -128 <= room.1 < 128,
            out@ == occupied_in(creeps@, room, i as int),
        decreases creeps.len() - i,
    {
        let p: WPos = creeps[i].pos;
        let at: (i32, i32) = p.room();
        if at.0 == room.0 && at.1 == room.1 {
            out.push(((p.wx - at.0 * 50) as u8, (p.wy - at.1 * 50) as u8));
        }
        i = i + 1;
    }
    out
}

fn contains_tile(tiles: &Vec<(u8, u8)>, x: u8, y: u8) -> (r: bool)
    ensures
        r == tiles@.contains((x, y)),
{
    let mut i: usize = 0;
    while i < tiles.len()
        invariant
            i <= tiles@.len(),
            forall|k: int| 0 <= k < i ==> #[trigger] tiles@[k] != (x, y),
        decreases tiles.len() - i,
    {
        let t: (u8, u8) = tiles[i];
        if t.0 == x && t.1 == y {
            assert(tiles@[i as int] == (x, y));
            return true;
        }
        i = i + 1;
    }
    false
}

pub open spec fn as_offsets(v: Seq<(i32, i32)>) -> Seq<(int, int)> {
    Seq::new(v.len(), |i: int| (v[i].0 as int, v[i].1 as int))
}

pub open spec fn small(v: Seq<(i32, i32)>) -> bool {
    forall|i: int|
        0 <= i < v.len() ==> -100 <= (#[trigger] v[i]).0 <= 100 && -100 <= v[i].1 <= 100
}

fn push_ring(out: &mut Vec<(i32, i32)>, r: i32)
    requires
        2 <= r <= 12,
        small(old(out)@),
    ensures
        as_offsets(final(out)@) == as_offsets(old(out)@) + ring(r as int),
        small(final(out)@),
{
    let ghost before = as_offsets(out@);
    let ghost sq = square(r as int);
    let w: i32 = 2 * r + 1;
    assert(0 <= w * w <= 625) by (nonlinear_arith)
        requires
            5 <= w <= 25,
    ;
    let n: i32 = w * w;
    let mut k: i32 = 0;
    assert(sq.len() == n);
    proof {
        reveal(Seq::filter);
        assert(sq.take(0) =~= Seq::<(int, int)>::empty());
        assert(before + sq.take(0).filter(at_distance(r as int)) =~= before);
    }
    while k < n
        invariant
            2 <= r <= 12,
            w == 2 * r + 1,
            0 <= k <= n <= 625,
            sq == square(r as int),
            sq.len() == n,
            small(out@),
            as_offsets(out@) == before + sq.take(k as int).filter(at_distance(r as int)),
        decreases n - k,
    {
        let dx: i32 = k % w - r;
        let dy: i32 = k / w - r;
        proof {
            lemma_filter_take(sq, at_distance(r as int), k as int);
            assert(0 <= k / w <= 625 && 0 <= k % w < w) by (nonlinear_arith)
                requires
                    0 <= k <= 625,
                    5 <= w <= 25,
            ;
            assert(k / w <= 24) by (nonlinear_arith)
                requires
                    0 <= k < w * w,
                    5 <= w <= 25,
            ;
        }
        let ax: i32 = if dx < 0 {
            -dx
        } else {
            dx
        };
        let ay: i32 = if dy < 0 {
            -dy
        } else {
            dy
        };
        let far: i32 = if ax >= ay {
            ax
        } else {
            ay
        };
        assert(sq[k as int] == (dx as int, dy as int));
        if far == r {
            let ghost o0 = as_offsets(out@);
            out.push((dx, dy));
            assert(as_offsets(out@) =~= o0.push((dx as int, dy as int)));
        }
        k = k + 1;
        assert(as_offsets(out@) =~= before + sq.take(k as int).filter(at_distance(r as int)));
    }
    assert(sq.take(n as int) =~= sq);
}

/// The offsets that are tried, out to a distance.
pub fn offsets_to_try(reach: i32) -> (r: Vec<(i32, i32)>)
    requires
        1 <= reach <= 12,
    ensures
        as_offsets(r@) == tried_offsets(reach as int),
        small(r@),
{
    let mut out: Vec<(i32, i32)> = vec![
        (0, 0),
        (1, 0),
        (0, 1),
        (-1, 0),
        (0, -1),
        (1, 1),
        (-1, 1),
        (1, -1),
        (-1, -1),
    ];
    assert(as_offsets(out@) =~= near_offsets());
    let mut r: i32 = 2;
    while r <= reach
        invariant
            2 <= r <= reach + 1,
            reach <= 12,
            as_offsets(out@) == tried_offsets(r as int - 1),
            small(out@),
        decreases reach + 1 - r,
    {
        push_ring(&mut out, r);
        r = r + 1;
    }
    out
}

/// How far from the entry a composition is spread.
pub const SQUAD_REACH: i32 = 10;

/// How far from the entry a roster of bodies is spread.
pub const BODIES_REACH: i32 = 12;

/// Chooses a tile for each of `need` creeps at an entry, out to a distance. `None`
/// if there are too few.
pub fn place_at_entry(
    terrain: &CombatTerrain,
    occupied: &Vec<(u8, u8)>,
    entry: (u8, u8),
    need: usize,
    reach: i32,
) -> (r: Option<Vec<(u8, u8)>>)
    requires
        terrain@.wf(),
        1 <= reach <= BODIES_REACH,
        entry.0 < 50,
        entry.1 < 50,
    ensures
        ({
            let tiles = entry_tiles(terrain@, occupied@, entry, need as nat, reach as int);
            if tiles.len() == need {
                r matches Some(t) && t@ == tiles
            } else {
                r is None
            }
        }),
{
    let offsets: Vec<(i32, i32)> = offsets_to_try(reach);
    let ghost tried = tried_offsets(reach as int);
    let mut out: Vec<(u8, u8)> = Vec::new();
    let mut i: usize = 0;
    while i < offsets.len()
        invariant
            i <= offsets@.len(),
            terrain@.wf(),
            entry.0 < 50,
            entry.1 < 50,
            small(offsets@),
            as_offsets(offsets@) == tried,
            out@.len() <= need,
            out@ == chosen_tiles(terrain@, occupied@, entry, tried, need as nat, i as int),
        decreases offsets.len() - i,
    {
        let o: (i32, i32) = offsets[i];
        assert(tried[i as int] == (o.0 as int, o.1 as int));
        assert(-100 <= offsets@[i as int].0 <= 100);
        let x: i32 = entry.0 as i32 + o.0;
        let y: i32 = entry.1 as i32 + o.1;
        if out.len() < need && 0 <= x && x < 50 && 0 <= y && y < 50 {
            let tx: u8 = x as u8;
            let ty: u8 = y as u8;
            if !terrain.is_wall(tx, ty) && !contains_tile(occupied, tx, ty) && !contains_tile(
                &out,
                tx,
                ty,
            ) {
                out.push((tx, ty));
            }
        }
        i = i + 1;
    }
    if out.len() < need {
        return None;
    }
    Some(out)
}

// ── What placing comes to ──────────────────────────────────────────────────

/// A dismantler takes the next front tile, a healer the next support tile, and the squad is
/// refused with the first member that has no body, no such role, or no tile left.
pub proof fn each_role_takes_its_next_tile(
    front: Seq<WPos>,
    support: Seq<WPos>,
    slots: Seq<FieldSlot>,
    n: int,
)
    requires
        0 <= n < slots.len(),
        placed(front, support, slots, n) is Some,
    ensures
        ({
            let p = placed(front, support, slots, n)->0;
            let next = placed(front, support, slots, n + 1);
            let s = slots[n];
            &&& !s.buildable ==> next is None
            &&& s.role is RangedDps || s.role is Other ==> next is None
            &&& s.buildable && s.role is Dismantler && p.front < front.len() ==> (
            next matches Some(q) && q.tiles == p.tiles.push(front[p.front as int]) && q.front
                == p.front + 1 && q.support == p.support)
            &&& s.role is Dismantler && p.front >= front.len() ==> next is None
            &&& s.buildable && s.role is Healer && p.support < support.len() ==> (
            next matches Some(q) && q.tiles == p.tiles.push(support[p.support as int])
                && q.support == p.support + 1 && q.front == p.front)
            &&& s.role is Healer && p.support >= support.len() ==> next is None
        }),
{
}

/// Nobody to place is placed, on no tile; and a squad that is refused stays refused however
/// many follow.
pub proof fn a_refused_squad_stays_refused(
    front: Seq<WPos>,
    support: Seq<WPos>,
    slots: Seq<FieldSlot>,
    k: int,
    n: int,
)
    requires
        0 <= k <= n,
    ensures
        placed(front, support, slots, 0) == Some(
            (Placing { tiles: Seq::empty(), front: 0, support: 0 }),
        ),
        placed(front, support, slots, k) is None ==> placed(front, support, slots, n) is None,
{
    if placed(front, support, slots, k) is None {
        lemma_placed_none(front, support, slots, k, n);
    }
}

/// The entry is tried first, then the tiles that share an edge with it, then those at its
/// corners: the nine tiles within one step.
pub proof fn the_entry_is_tried_first(i: int)
    ensures
        near_offsets().len() == 9,
        near_offsets()[0] == (0int, 0int),
        1 <= i < 5 ==> abs_of(near_offsets()[i].0) + abs_of(near_offsets()[i].1) == 1,
        5 <= i < 9 ==> abs_of(near_offsets()[i].0) == 1 && abs_of(near_offsets()[i].1) == 1,
        near_offsets()[1] == (1int, 0int) && near_offsets()[2] == (0int, 1int),
        near_offsets()[3] == (-1int, 0int) && near_offsets()[4] == (0int, -1int),
        near_offsets()[5] == (1int, 1int) && near_offsets()[6] == (-1int, 1int),
        near_offsets()[7] == (1int, -1int) && near_offsets()[8] == (-1int, -1int),
{
}

/// A ring holds exactly the offsets at its distance.
pub proof fn a_ring_is_at_its_distance(r: int, x: int, y: int)
    requires
        2 <= r <= 12,
    ensures
        ring(r).contains((x, y)) <==> -r <= x <= r && -r <= y <= r && (x == r || x == -r || y == r
            || y == -r),
{
    let w = 2 * r + 1;
    let sq = square(r);
    assert(w * w >= 0) by (nonlinear_arith);
    if ring(r).contains((x, y)) {
        let j = choose|j: int| 0 <= j < ring(r).len() && ring(r)[j] == (x, y);
        sq.lemma_filter_pred(at_distance(r), j);
        sq.lemma_filter_contains_rev(at_distance(r), (x, y));
    }
    if -r <= x <= r && -r <= y <= r && (x == r || x == -r || y == r || y == -r) {
        let k = (y + r) * w + (x + r);
        assert(0 <= k < w * w && k % w == x + r && k / w == y + r) by (nonlinear_arith)
            requires
                k == (y + r) * w + (x + r),
                0 <= x + r < w,
                0 <= y + r < w,
                w >= 5,
        ;
        assert(sq[k] == (x, y));
        assert(at_distance(r)(sq[k]));
        sq.lemma_filter_contains(at_distance(r), k);
    }
}

/// Farther rings are tried after nearer ones, and nothing beyond the reach.
pub proof fn rings_are_tried_outward(reach: int)
    requires
        2 <= reach,
    ensures
        tried_offsets(1) == near_offsets(),
        tried_offsets(reach) == tried_offsets(reach - 1) + ring(reach),
{
}

/// A tile that can be stood on is taken while members are left to place, and one that is
/// occupied, walled, outside the room or taken already is not.
pub proof fn the_next_free_tile_is_taken(
    t: TerrainView,
    occupied: Seq<(u8, u8)>,
    entry: (u8, u8),
    offsets: Seq<(int, int)>,
    need: nat,
    n: int,
)
    requires
        0 <= n < offsets.len(),
    ensures
        ({
            let before = chosen_tiles(t, occupied, entry, offsets, need, n);
            let after = chosen_tiles(t, occupied, entry, offsets, need, n + 1);
            let (x, y) = (entry.0 + offsets[n].0, entry.1 + offsets[n].1);
            let c = (x as u8, y as u8);
            let free = 0 <= x < 50 && 0 <= y < 50 && !t.wall_at(x, y) && !occupied.contains(c)
                && !before.contains(c);
            &&& before.len() < need && free ==> after == before.push(c)
            &&& before.len() >= need || !free ==> after == before
        }),
{
}

/// A room's creeps occupy its tiles, each where it stands, and creeps of other rooms none.
pub proof fn creeps_occupy_where_they_stand(creeps: Seq<SimCreep>, room: (i32, i32), n: int)
    requires
        0 <= n < creeps.len(),
    ensures
        ({
            let c = creeps[n].pos;
            let before = occupied_in(creeps, room, n);
            let after = occupied_in(creeps, room, n + 1);
            let inside = 50 * room.0 <= c.wx < 50 * room.0 + 50 && 50 * room.1 <= c.wy < 50 * room.1
                + 50;
            &&& inside ==> after == before.push(
                ((c.wx - 50 * room.0) as u8, (c.wy - 50 * room.1) as u8),
            )
            &&& !inside ==> after == before
        }),
        occupied_in(creeps, room, 0).len() == 0,
{
    let c = creeps[n].pos;
    if 50 * room.0 <= c.wx < 50 * room.0 + 50 && 50 * room.1 <= c.wy < 50 * room.1 + 50 {
        assert(c.wx as int / 50 == room.0 && c.wx as int % 50 == c.wx - 50 * room.0);
        assert(c.wy as int / 50 == room.1 && c.wy as int % 50 == c.wy - 50 * room.1);
    }
}

/// Bodies are spread two tiles further from the entry than a composition, which is spread ten.
pub proof fn bodies_are_spread_further(d: int)
    ensures
        SQUAD_REACH == 10,
        d <= SQUAD_REACH <==> d + 2 <= BODIES_REACH,
{
}

} // verus!
