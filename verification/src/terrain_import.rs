//! Room terrain: the 2500-character encoding, the dense form that room planning
//! reads, and moving objects off walls onto the nearest open tile.

use crate::colony::{all_false, count_true, lemma_count_bound, no_flags};
use crate::lists::copied;
use crate::position::{grid_dist, sign_of};
use vstd::prelude::*;
use vstd::string::*;

verus! {

/// Tiles of a room.
pub const TILES: usize = 2500;

/// Where a tile stands in a row-major room.
pub open spec fn tile_index(x: int, y: int) -> int {
    y * 50 + x
}

pub open spec fn in_room(x: int, y: int) -> bool {
    0 <= x < 50 && 0 <= y < 50
}

/// A room's walls and swamps, a flag per tile.
#[verifier::ext_equal]
pub struct TerrainView {
    pub walls: Seq<bool>,
    pub swamps: Seq<bool>,
}

impl TerrainView {
    pub open spec fn wf(self) -> bool {
        self.walls.len() == TILES && self.swamps.len() == TILES
    }

    /// No tile is both a wall and a swamp.
    pub open spec fn disjoint(self) -> bool {
        forall|i: int| 0 <= i < TILES ==> !(#[trigger] self.walls[i] && self.swamps[i])
    }

    pub open spec fn wall_at(self, x: int, y: int) -> bool {
        in_room(x, y) && self.walls[tile_index(x, y)]
    }

    pub open spec fn swamp_at(self, x: int, y: int) -> bool {
        in_room(x, y) && self.swamps[tile_index(x, y)]
    }
}

/// A room's terrain as the combat simulation reads it.
#[derive(Clone, Debug)]
pub struct CombatTerrain {
    walls: Vec<bool>,
    swamps: Vec<bool>,
}

impl View for CombatTerrain {
    type V = TerrainView;

    closed spec fn view(&self) -> TerrainView {
        TerrainView { walls: self.walls@, swamps: self.swamps@ }
    }
}

/// A room's terrain as room planning reads it: a byte per tile, bit 0 for a wall
/// and bit 1 for a swamp.
#[derive(Clone, Debug)]
pub struct FastRoomTerrain {
    pub buffer: Vec<u8>,
}

/// A real room: its terrain, and where its objects stand.
#[derive(Debug, PartialEq, Eq)]
pub struct TerrainFixture {
    pub room: String,
    pub terrain: String,
    pub controller: (u8, u8),
    pub sources: Vec<(u8, u8)>,
    pub mineral: Option<(u8, u8)>,
}

impl Clone for TerrainFixture {
    fn clone(&self) -> (r: Self)
        ensures
            r.room@ == self.room@,
            r.terrain@ == self.terrain@,
            r.controller == self.controller,
            r.sources@ == self.sources@,
            r.mineral == self.mineral,
    {
        TerrainFixture {
            room: self.room.clone(),
            terrain: self.terrain.clone(),
            controller: self.controller,
            sources: copied(&self.sources),
            mineral: self.mineral,
        }
    }
}

/// The value of a hexadecimal digit; any other character counts as 0.
pub open spec fn hex_value(c: char) -> int {
    let v = c as int;
    if 48 <= v <= 57 {
        v - 48
    } else if 97 <= v <= 102 {
        v - 87
    } else if 65 <= v <= 70 {
        v - 55
    } else {
        0
    }
}

pub open spec fn wall_bit(v: int) -> bool {
    v % 2 == 1
}

pub open spec fn swamp_bit(v: int) -> bool {
    v / 2 % 2 == 1
}

/// The terrain that a text encodes. Walls win over swamps; tiles that the text does
/// not reach are plain.
pub open spec fn decoded(s: Seq<char>) -> TerrainView {
    TerrainView {
        walls: Seq::new(TILES as nat, |i: int| i < s.len() && wall_bit(hex_value(s[i]))),
        swamps: Seq::new(
            TILES as nat,
            |i: int|
                i < s.len() && !wall_bit(hex_value(s[i])) && swamp_bit(hex_value(s[i])),
        ),
    }
}

/// The dense form that a text encodes.
pub open spec fn fast_decoded(s: Seq<char>) -> Seq<u8> {
    Seq::new(
        if s.len() < TILES {
            s.len()
        } else {
            TILES as nat
        },
        |i: int| hex_value(s[i]) as u8,
    )
}

/// The terrain that a dense form holds.
pub open spec fn from_fast(b: Seq<u8>) -> TerrainView {
    TerrainView {
        walls: Seq::new(TILES as nat, |i: int| wall_bit(b[i] as int)),
        swamps: Seq::new(TILES as nat, |i: int| !wall_bit(b[i] as int) && swamp_bit(b[i] as int)),
    }
}

/// The text that encodes a terrain.
pub open spec fn encoded(t: TerrainView) -> Seq<char> {
    Seq::new(
        TILES as nat,
        |i: int|
            if t.walls[i] {
                '1'
            } else if t.swamps[i] {
                '2'
            } else {
                '0'
            },
    )
}

/// What is encoded is decoded again: the walls as they were, and the swamps that no
/// wall covers. A terrain whose walls and swamps are disjoint comes back unchanged.
pub proof fn encode_then_decode_is_identity(t: TerrainView)
    requires
        t.wf(),
    ensures
        decoded(encoded(t)).walls == t.walls,
        decoded(encoded(t)).swamps == Seq::new(
            TILES as nat,
            |i: int| t.swamps[i] && !t.walls[i],
        ),
        t.disjoint() ==> decoded(encoded(t)) == t,
{
    assert(decoded(encoded(t)).walls =~= t.walls);
    assert(decoded(encoded(t)).swamps =~= Seq::new(
        TILES as nat,
        |i: int| t.swamps[i] && !t.walls[i],
    ));
    if t.disjoint() {
        assert(decoded(encoded(t)).swamps =~= t.swamps) by {
            assert forall|i: int| 0 <= i < TILES implies (t.swamps[i] && !t.walls[i])
                == t.swamps[i] by {
                assert(!(t.walls[i] && t.swamps[i]));
            }
        }
    }
}

/// Decoding to the dense form and from there gives what decoding directly gives.
pub proof fn fast_path_agrees(s: Seq<char>)
    requires
        s.len() >= TILES,
    ensures
        from_fast(fast_decoded(s)) == decoded(s),
{
    assert(from_fast(fast_decoded(s)).walls =~= decoded(s).walls);
    assert(from_fast(fast_decoded(s)).swamps =~= decoded(s).swamps);
}

/// A decoded terrain has no tile that is both a wall and a swamp.
pub proof fn decoded_is_disjoint(s: Seq<char>)
    ensures
        decoded(s).wf(),
        decoded(s).disjoint(),
{
}

fn hex_digit(c: char) -> (v: u8)
    ensures
        v == hex_value(c),
        v < 16,
{
    let n: u32 = c as u32;
    if 48 <= n && n <= 57 {
        (n - 48) as u8
    } else if 97 <= n && n <= 102 {
        (n - 87) as u8
    } else if 65 <= n && n <= 70 {
        (n - 55) as u8
    } else {
        0
    }
}

impl CombatTerrain {
    /// Plain everywhere.
    pub fn open_room() -> (t: CombatTerrain)
        ensures
            t@.wf(),
            t@.walls == all_false(TILES as nat),
            t@.swamps == all_false(TILES as nat),
    {
        CombatTerrain { walls: no_flags(TILES), swamps: no_flags(TILES) }
    }

    pub fn is_wall(&self, x: u8, y: u8) -> (r: bool)
        requires
            self@.wf(),
        ensures
            r == self@.wall_at(x as int, y as int),
    {
        if x < 50 && y < 50 {
            self.walls[y as usize * 50 + x as usize]
        } else {
            false
        }
    }

    pub fn is_swamp(&self, x: u8, y: u8) -> (r: bool)
        requires
            self@.wf(),
        ensures
            r == self@.swamp_at(x as int, y as int),
    {
        if x < 50 && y < 50 {
            self.swamps[y as usize * 50 + x as usize]
        } else {
            false
        }
    }

    pub fn set_wall(&mut self, x: u8, y: u8, wall: bool)
        requires
            old(self)@.wf(),
            x < 50,
            y < 50,
        ensures
            final(self)@.wf(),
            final(self)@.walls == old(self)@.walls.update(tile_index(x as int, y as int), wall),
            final(self)@.swamps == old(self)@.swamps,
    {
        self.walls.set(y as usize * 50 + x as usize, wall);
    }

    pub fn set_swamp(&mut self, x: u8, y: u8, swamp: bool)
        requires
            old(self)@.wf(),
            x < 50,
            y < 50,
        ensures
            final(self)@.wf(),
            final(self)@.walls == old(self)@.walls,
            final(self)@.swamps == old(self)@.swamps.update(tile_index(x as int, y as int), swamp),
    {
        self.swamps.set(y as usize * 50 + x as usize, swamp);
    }

    /// The wall tiles in row-major order.
    pub fn wall_tiles(&self) -> (r: Vec<(u8, u8)>)
        requires
            self@.wf(),
        ensures
            r@ == listed(self@.walls, TILES as int),
    {
        list_tiles(&self.walls)
    }

    /// The swamp tiles in row-major order.
    pub fn swamp_tiles(&self) -> (r: Vec<(u8, u8)>)
        requires
            self@.wf(),
        ensures
            r@ == listed(self@.swamps, TILES as int),
    {
        list_tiles(&self.swamps)
    }
}

/// The flagged tiles among the first `n`, in order.
pub open spec fn listed(flags: Seq<bool>, n: int) -> Seq<(u8, u8)>
    decreases n,
{
    if n <= 0 {
        seq![]
    } else {
        let before = listed(flags, n - 1);
        if flags[n - 1] {
            before.push((((n - 1) % 50) as u8, ((n - 1) / 50) as u8))
        } else {
            before
        }
    }
}

fn list_tiles(flags: &Vec<bool>) -> (r: Vec<(u8, u8)>)
    requires
        flags@.len() == TILES,
    ensures
        r@ == listed(flags@, TILES as int),
{
    let mut out: Vec<(u8, u8)> = Vec::new();
    let mut i: usize = 0;
    while i < TILES
        invariant
            i <= TILES,
            flags@.len() == TILES,
            out@ == listed(flags@, i as int),
        decreases TILES - i,
    {
        if flags[i] {
            out.push(((i % 50) as u8, (i / 50) as u8));
        }
        i = i + 1;
    }
    out
}

/// Decodes a room's terrain.
pub fn decode_terrain(encoded: &str) -> (t: CombatTerrain)
    ensures
        t@ == decoded(encoded@),
        t@.wf(),
{
    let n: usize = encoded.unicode_len();
    let mut walls: Vec<bool> = Vec::new();
    let mut swamps: Vec<bool> = Vec::new();
    let mut i: usize = 0;
    while i < TILES
        invariant
            i <= TILES,
            n == encoded@.len(),
            walls@ == decoded(encoded@).walls.take(i as int),
            swamps@ == decoded(encoded@).swamps.take(i as int),
        decreases TILES - i,
    {
        let v: u8 = if i < n {
            hex_digit(encoded.get_char(i))
        } else {
            0
        };
        let wall: bool = v % 2 == 1;
        walls.push(wall);
        swamps.push(!wall && v / 2 % 2 == 1);
        i = i + 1;
        assert(walls@ =~= decoded(encoded@).walls.take(i as int));
        assert(swamps@ =~= decoded(encoded@).swamps.take(i as int));
    }
    let t = CombatTerrain { walls, swamps };
    assert(t@ =~= decoded(encoded@));
    t
}

/// Decodes a room's terrain to the dense form.
pub fn decode_fast(encoded: &str) -> (f: FastRoomTerrain)
    ensures
        f.buffer@ == fast_decoded(encoded@),
{
    let len: usize = encoded.unicode_len();
    let n: usize = if len < TILES {
        len
    } else {
        TILES
    };
    let mut buffer: Vec<u8> = Vec::new();
    let mut i: usize = 0;
    while i < n
        invariant
            len == encoded@.len(),
            n == fast_decoded(encoded@).len(),
            i <= n <= len,
            buffer@ == fast_decoded(encoded@).take(i as int),
        decreases n - i,
    {
        buffer.push(hex_digit(encoded.get_char(i)));
        i = i + 1;
        assert(buffer@ =~= fast_decoded(encoded@).take(i as int));
    }
    assert(buffer@ =~= fast_decoded(encoded@));
    FastRoomTerrain { buffer }
}

/// The terrain that a full dense form holds.
pub fn fast_to_combat(fast: &FastRoomTerrain) -> (t: CombatTerrain)
    requires
        fast.buffer@.len() >= TILES,
    ensures
        t@ == from_fast(fast.buffer@),
        t@.wf(),
{
    let mut walls: Vec<bool> = Vec::new();
    let mut swamps: Vec<bool> = Vec::new();
    let mut i: usize = 0;
    while i < TILES
        invariant
            i <= TILES,
            fast.buffer@.len() >= TILES,
            walls@ == from_fast(fast.buffer@).walls.take(i as int),
            swamps@ == from_fast(fast.buffer@).swamps.take(i as int),
        decreases TILES - i,
    {
        let v: u8 = fast.buffer[i];
        let wall: bool = v % 2 == 1;
        walls.push(wall);
        swamps.push(!wall && v / 2 % 2 == 1);
        i = i + 1;
        assert(walls@ =~= from_fast(fast.buffer@).walls.take(i as int));
        assert(swamps@ =~= from_fast(fast.buffer@).swamps.take(i as int));
    }
    let t = CombatTerrain { walls, swamps };
    assert(t@ =~= from_fast(fast.buffer@));
    t
}

/// Encodes a room's terrain.
pub fn encode_terrain(t: &CombatTerrain) -> (s: String)
    requires
        t@.wf(),
    ensures
        s@ == encoded(t@),
{
    let mut out: String = String::new();
    let mut i: usize = 0;
    while i < TILES
        invariant
            i <= TILES,
            t@.wf(),
            out@ == encoded(t@).take(i as int),
        decreases TILES - i,
    {
        if t.walls[i] {
            out.push('1');
        } else if t.swamps[i] {
            out.push('2');
        } else {
            out.push('0');
        }
        i = i + 1;
        assert(out@ =~= encoded(t@).take(i as int));
    }
    assert(out@ =~= encoded(t@));
    out
}

/// The eight directions, in the order that a search spreads.
pub open spec fn spread(k: int) -> (int, int) {
    if k == 0 {
        (1, 0)
    } else if k == 1 {
        (-1, 0)
    } else if k == 2 {
        (0, 1)
    } else if k == 3 {
        (0, -1)
    } else if k == 4 {
        (1, 1)
    } else if k == 5 {
        (-1, 1)
    } else if k == 6 {
        (1, -1)
    } else {
        (-1, -1)
    }
}

/// The eight neighbours of a tile, in or out of the room.
pub open spec fn neighbours(c: (int, int)) -> Seq<(int, int)> {
    Seq::new(8, |k: int| (c.0 + spread(k).0, c.1 + spread(k).1))
}

/// In the room and not yet visited.
pub open spec fn fresh(seen: Seq<bool>, c: (int, int)) -> bool {
    in_room(c.0, c.1) && !seen[tile_index(c.0, c.1)]
}

pub proof fn lemma_count_set(s: Seq<bool>, i: int, v: bool)
    requires
        0 <= i < s.len(),
        s[i] != v,
    ensures
        count_true(s.update(i, v)) == count_true(s) + if v {
            1int
        } else {
            -1int
        },
    decreases s.len(),
{
    let u = s.update(i, v);
    if i == s.len() - 1 {
        assert(u.drop_last() =~= s.drop_last());
    } else {
        assert(u.drop_last() =~= s.drop_last().update(i, v));
        lemma_count_set(s.drop_last(), i, v);
    }
}

/// The search for an open tile: tiles wait in `q` from `h` on. One that is out of
/// the room or visited is passed over; one that is free is the answer; any other is
/// marked and its neighbours wait in turn. Without an answer it is `start`.
pub open spec fn search(
    free: Seq<bool>,
    start: (int, int),
    q: Seq<(int, int)>,
    h: int,
    seen: Seq<bool>,
) -> (int, int)
    decreases seen.len() - count_true(seen), q.len() - h,
{
    if h < 0 || h >= q.len() || seen.len() != TILES {
        start
    } else if !fresh(seen, q[h]) {
        search(free, start, q, h + 1, seen)
    } else if free[tile_index(q[h].0, q[h].1)] {
        q[h]
    } else {
        proof {
            lemma_count_set(seen, tile_index(q[h].0, q[h].1), true);
            lemma_count_bound(seen.update(tile_index(q[h].0, q[h].1), true));
        }
        search(
            free,
            start,
            q + neighbours(q[h]),
            h + 1,
            seen.update(tile_index(q[h].0, q[h].1), true),
        )
    }
}

/// Tiles that are neither walls nor taken.
pub open spec fn free_tiles(walls: Seq<bool>, taken: Seq<(u8, u8)>) -> Seq<bool> {
    Seq::new(
        TILES as nat,
        |i: int| !walls[i] && !taken.contains(((i % 50) as u8, (i / 50) as u8)),
    )
}

/// Where a search from a tile ends.
pub open spec fn snapped(free: Seq<bool>, x: int, y: int) -> (int, int) {
    search(free, (x, y), seq![(x, y)], 0, all_false(TILES as nat))
}

pub open spec fn tile_dist(a: (int, int), b: (int, int)) -> int {
    grid_dist(a.0, a.1, b.0, b.1)
}

/// What holds of a search in progress: marked tiles are not free; what borders on a
/// marked tile is marked or waits; the start is marked or waits; and whatever is
/// nearer than a waiting tile waits before it.
pub open spec fn searching(
    free: Seq<bool>,
    start: (int, int),
    q: Seq<(int, int)>,
    h: int,
    seen: Seq<bool>,
) -> bool {
    &&& free.len() == TILES
    &&& seen.len() == TILES
    &&& 0 <= h <= q.len()
    &&& in_room(start.0, start.1)
    &&& forall|i: int| 0 <= i < TILES && #[trigger] seen[i] ==> !free[i]
    &&& forall|c: (int, int), k: int|
        #![trigger seen[tile_index(c.0, c.1)], neighbours(c)[k]]
        in_room(c.0, c.1) && seen[tile_index(c.0, c.1)] && 0 <= k < 8 && fresh(
            seen,
            neighbours(c)[k],
        ) ==> waits(q, h, q.len() as int, neighbours(c)[k])
    &&& fresh(seen, start) ==> waits(q, h, q.len() as int, start)
    &&& forall|i: int, c: (int, int)|
        #![trigger q[i], fresh(seen, c)]
        h <= i < q.len() && fresh(seen, q[i]) && fresh(seen, c) && tile_dist(start, c) < tile_dist(
            start,
            q[i],
        ) ==> waits(q, h, i, c)
}

/// The tile waits between two positions.
pub open spec fn waits(q: Seq<(int, int)>, from: int, to: int, c: (int, int)) -> bool {
    exists|j: int| from <= j < to && #[trigger] q[j] == c
}

/// The tile next to `c` on the way to `start`.
pub open spec fn inward(start: (int, int), c: (int, int)) -> (int, int) {
    (c.0 + sign_of(start.0 - c.0), c.1 + sign_of(start.1 - c.1))
}

/// Which direction leads back out from the inward neighbour.
proof fn lemma_inward(start: (int, int), c: (int, int)) -> (k: int)
    requires
        in_room(start.0, start.1),
        in_room(c.0, c.1),
        c != start,
    ensures
        0 <= k < 8,
        neighbours(inward(start, c))[k] == c,
        in_room(inward(start, c).0, inward(start, c).1),
        tile_dist(start, inward(start, c)) == tile_dist(start, c) - 1,
{
    let n = inward(start, c);
    let d = (c.0 - n.0, c.1 - n.1);
    let k: int = if d == (1int, 0int) {
        0
    } else if d == (-1int, 0int) {
        1
    } else if d == (0int, 1int) {
        2
    } else if d == (0int, -1int) {
        3
    } else if d == (1int, 1int) {
        4
    } else if d == (-1int, 1int) {
        5
    } else if d == (1int, -1int) {
        6
    } else {
        7
    };
    assert(neighbours(n)[k] == c);
    k
}

/// While a tile is fresh, some fresh tile at most as far waits.
proof fn lemma_something_waits(
    free: Seq<bool>,
    start: (int, int),
    q: Seq<(int, int)>,
    h: int,
    seen: Seq<bool>,
    c: (int, int),
)
    requires
        searching(free, start, q, h, seen),
        fresh(seen, c),
    ensures
        exists|j: int| h <= j < q.len() && fresh(seen, #[trigger] q[j]),
    decreases tile_dist(start, c),
{
    if c == start {
        let j = choose|j: int| h <= j < q.len() && #[trigger] q[j] == start;
        assert(fresh(seen, q[j]));
    } else {
        let k = lemma_inward(start, c);
        let n = inward(start, c);
        if seen[tile_index(n.0, n.1)] {
            assert(waits(q, h, q.len() as int, neighbours(n)[k]));
            let j = choose|j: int| h <= j < q.len() && #[trigger] q[j] == c;
            assert(fresh(seen, q[j]));
        } else {
            lemma_something_waits(free, start, q, h, seen, n);
        }
    }
}

proof fn lemma_pass_over(
    free: Seq<bool>,
    start: (int, int),
    q: Seq<(int, int)>,
    h: int,
    seen: Seq<bool>,
)
    requires
        searching(free, start, q, h, seen),
        h < q.len(),
        !fresh(seen, q[h]),
    ensures
        searching(free, start, q, h + 1, seen),
{
    assert forall|c: (int, int), to: int| fresh(seen, c) && #[trigger] waits(q, h, to, c) implies waits(
        q,
        h + 1,
        to,
        c,
    ) by {
        let j = choose|j: int| h <= j < to && #[trigger] q[j] == c;
        assert(j != h);
        assert(q[j] == c);
    }
}

proof fn lemma_mark(
    free: Seq<bool>,
    start: (int, int),
    q: Seq<(int, int)>,
    h: int,
    seen: Seq<bool>,
)
    requires
        searching(free, start, q, h, seen),
        h < q.len(),
        fresh(seen, q[h]),
        !free[tile_index(q[h].0, q[h].1)],
    ensures
        searching(
            free,
            start,
            q + neighbours(q[h]),
            h + 1,
            seen.update(tile_index(q[h].0, q[h].1), true),
        ),
{
    let p = q[h];
    let q2 = q + neighbours(p);
    let s2 = seen.update(tile_index(p.0, p.1), true);
    assert forall|c: (int, int)| fresh(s2, c) implies #[trigger] fresh(seen, c) && c != p by {}
    assert forall|c: (int, int)| in_room(c.0, c.1) && #[trigger] s2[tile_index(c.0, c.1)] implies c
        == p || seen[tile_index(c.0, c.1)] by {
        if tile_index(c.0, c.1) == tile_index(p.0, p.1) {
            assert(c == p);
        }
    }
    assert forall|c: (int, int), to: int|
        fresh(s2, c) && to <= q.len() && #[trigger] waits(q, h, to, c) implies waits(
        q2,
        h + 1,
        to,
        c,
    ) by {
        let j = choose|j: int| h <= j < to && #[trigger] q[j] == c;
        assert(j != h);
        assert(q2[j] == c);
    }
    assert forall|c: (int, int), a: int, b: int, e: int|
        #[trigger] waits(q2, a, b, c) && b <= e implies #[trigger] waits(q2, a, e, c) by {
        let j = choose|j: int| a <= j < b && #[trigger] q2[j] == c;
        assert(q2[j] == c);
    }
    // What borders on a marked tile is marked or waits.
    assert forall|c: (int, int), k: int|
        #![trigger s2[tile_index(c.0, c.1)], neighbours(c)[k]]
        in_room(c.0, c.1) && s2[tile_index(c.0, c.1)] && 0 <= k < 8 && fresh(
            s2,
            neighbours(c)[k],
        ) implies waits(q2, h + 1, q2.len() as int, neighbours(c)[k]) by {
        let n = neighbours(c)[k];
        if c == p {
            assert(q2[q.len() + k] == n);
        } else {
            assert(seen[tile_index(c.0, c.1)]);
            assert(fresh(seen, n));
            assert(waits(q, h, q.len() as int, n));
            assert(waits(q2, h + 1, q.len() as int, n));
        }
    }
    if fresh(s2, start) {
        assert(fresh(seen, start));
        assert(waits(q, h, q.len() as int, start));
        assert(waits(q2, h + 1, q.len() as int, start));
    }
    // Whatever is nearer than a waiting tile waits before it.
    assert forall|i: int, c: (int, int)|
        #![trigger q2[i], fresh(s2, c)]
        h + 1 <= i < q2.len() && fresh(s2, q2[i]) && fresh(s2, c) && tile_dist(start, c)
            < tile_dist(start, q2[i]) implies waits(q2, h + 1, i, c) by {
        assert(fresh(seen, c));
        if i < q.len() {
            assert(q2[i] == q[i]);
            assert(fresh(seen, q[i]));
            assert(waits(q, h, i, c));
        } else {
            let k = i - q.len();
            let n = neighbours(p)[k];
            assert(q2[i] == n);
            assert(tile_dist(start, n) <= tile_dist(start, p) + 1);
            if tile_dist(start, c) < tile_dist(start, p) {
                assert(waits(q, h, h, c));
                assert(false);
            }
            assert(c != start) by {
                if c == start {
                    assert(tile_dist(start, c) == 0);
                    assert(p == start);
                }
            }
            let back = lemma_inward(start, c);
            let m = inward(start, c);
            if !seen[tile_index(m.0, m.1)] {
                assert(fresh(seen, m));
                assert(tile_dist(start, m) < tile_dist(start, q[h]));
                assert(waits(q, h, h, m));
                assert(false);
            }
            assert(neighbours(m)[back] == c);
            assert(waits(q, h, q.len() as int, c));
            assert(waits(q2, h + 1, q.len() as int, c));
            assert(waits(q2, h + 1, i, c));
        }
    }
}

proof fn lemma_search_is_nearest(
    free: Seq<bool>,
    start: (int, int),
    q: Seq<(int, int)>,
    h: int,
    seen: Seq<bool>,
)
    requires
        searching(free, start, q, h, seen),
    ensures
        ({
            let r = search(free, start, q, h, seen);
            &&& in_room(r.0, r.1)
            &&& (exists|i: int| 0 <= i < TILES && #[trigger] free[i]) ==> free[tile_index(r.0, r.1)]
            &&& free[tile_index(r.0, r.1)] ==> forall|c: (int, int)|
                in_room(c.0, c.1) && #[trigger] free[tile_index(c.0, c.1)] ==> tile_dist(start, r)
                    <= tile_dist(start, c)
            &&& (forall|i: int| 0 <= i < TILES ==> !(#[trigger] free[i])) ==> r == start
        }),
    decreases seen.len() - count_true(seen), q.len() - h,
{
    if h >= q.len() {
        assert forall|i: int| 0 <= i < TILES implies !(#[trigger] free[i]) by {
            let c = (i % 50, i / 50);
            assert(tile_index(c.0, c.1) == i);
            if !seen[i] {
                assert(fresh(seen, c));
                lemma_something_waits(free, start, q, h, seen, c);
            }
        }
    } else if !fresh(seen, q[h]) {
        lemma_pass_over(free, start, q, h, seen);
        lemma_search_is_nearest(free, start, q, h + 1, seen);
    } else if free[tile_index(q[h].0, q[h].1)] {
        assert forall|c: (int, int)|
            in_room(c.0, c.1) && #[trigger] free[tile_index(c.0, c.1)] implies tile_dist(
            start,
            q[h],
        ) <= tile_dist(start, c) by {
            assert(fresh(seen, c));
            if tile_dist(start, c) < tile_dist(start, q[h]) {
                assert(waits(q, h, h, c));
            }
        }
    } else {
        lemma_mark(free, start, q, h, seen);
        lemma_count_set(seen, tile_index(q[h].0, q[h].1), true);
        lemma_count_bound(seen.update(tile_index(q[h].0, q[h].1), true));
        lemma_search_is_nearest(
            free,
            start,
            q + neighbours(q[h]),
            h + 1,
            seen.update(tile_index(q[h].0, q[h].1), true),
        );
    }
}

/// The search ends on a free tile wherever there is one, no free tile is nearer,
/// and it stays put where there is none.
pub proof fn snap_is_nearest(free: Seq<bool>, x: int, y: int)
    requires
        free.len() == TILES,
        in_room(x, y),
    ensures
        ({
            let r = snapped(free, x, y);
            &&& in_room(r.0, r.1)
            &&& (exists|i: int| 0 <= i < TILES && #[trigger] free[i]) ==> free[tile_index(r.0, r.1)]
            &&& free[tile_index(r.0, r.1)] ==> forall|c: (int, int)|
                in_room(c.0, c.1) && #[trigger] free[tile_index(c.0, c.1)] ==> tile_dist(
                    (x, y),
                    r,
                ) <= tile_dist((x, y), c)
            &&& (forall|i: int| 0 <= i < TILES ==> !(#[trigger] free[i])) ==> r == (x, y)
        }),
{
    let q = seq![(x, y)];
    let seen = all_false(TILES as nat);
    assert(q[0] == (x, y));
    assert(waits(q, 0, 1, (x, y)));
    assert(searching(free, (x, y), q, 0, seen)) by {
        assert forall|i: int, c: (int, int)|
            #![trigger q[i], fresh(seen, c)]
            0 <= i < q.len() && fresh(seen, q[i]) && fresh(seen, c) && tile_dist((x, y), c)
                < tile_dist((x, y), q[i]) implies waits(q, 0, i, c) by {
            assert(q[i] == (x, y));
            assert(tile_dist((x, y), (x, y)) == 0);
        }
    }
    lemma_search_is_nearest(free, (x, y), q, 0, seen);
}

/// A free tile stays where it is.
pub proof fn snap_keeps_a_free_tile(free: Seq<bool>, x: int, y: int)
    requires
        free.len() == TILES,
        in_room(x, y),
        free[tile_index(x, y)],
    ensures
        snapped(free, x, y) == (x, y),
{
    snap_is_nearest(free, x, y);
    let r = snapped(free, x, y);
    assert(tile_dist((x, y), r) <= tile_dist((x, y), (x, y)));
}

/// Where objects end up that are moved one after another, each onto the nearest
/// tile that is open and not taken by one before it.
pub open spec fn settled(walls: Seq<bool>, objs: Seq<(u8, u8)>) -> Seq<(u8, u8)>
    decreases objs.len(),
{
    if objs.len() == 0 {
        seq![]
    } else {
        let before = settled(walls, objs.drop_last());
        let at = objs.last();
        let to = snapped(free_tiles(walls, before), at.0 as int, at.1 as int);
        before.push((to.0 as u8, to.1 as u8))
    }
}

proof fn lemma_free_after_take(walls: Seq<bool>, taken: Seq<(u8, u8)>, t: (u8, u8))
    requires
        walls.len() == TILES,
        t.0 < 50,
        t.1 < 50,
    ensures
        count_true(free_tiles(walls, taken.push(t))) >= count_true(free_tiles(walls, taken)) - 1,
{
    let a = free_tiles(walls, taken);
    let b = free_tiles(walls, taken.push(t));
    let k = tile_index(t.0 as int, t.1 as int);
    assert forall|i: int| 0 <= i < TILES implies #[trigger] b[i] == (a[i] && i != k) by {
        let c = ((i % 50) as u8, (i / 50) as u8);
        if taken.contains(c) {
            let j = choose|j: int| 0 <= j < taken.len() && taken[j] == c;
            assert(taken.push(t)[j] == c);
        }
        if i == k {
            assert(c == t);
            assert(taken.push(t)[taken.len() as int] == t);
        }
        if taken.push(t).contains(c) {
            let j = choose|j: int| 0 <= j < taken.push(t).len() && taken.push(t)[j] == c;
            if j < taken.len() {
                assert(taken[j] == c);
            }
        }
    }
    if a[k] {
        assert(b =~= a.update(k, false));
        lemma_count_set(a, k, false);
    } else {
        assert(b =~= a);
    }
}

proof fn lemma_count_zero(s: Seq<bool>)
    requires
        count_true(s) > 0,
    ensures
        exists|i: int| 0 <= i < s.len() && #[trigger] s[i],
    decreases s.len(),
{
    if s.len() > 0 {
        if s.last() {
            assert(s[s.len() - 1]);
        } else {
            lemma_count_zero(s.drop_last());
            let i = choose|i: int| 0 <= i < s.drop_last().len() && #[trigger] s.drop_last()[i];
            assert(s[i]);
        }
    }
}

pub open spec fn all_in_room(objs: Seq<(u8, u8)>) -> bool {
    forall|i: int| 0 <= i < objs.len() ==> (#[trigger] objs[i]).0 < 50 && objs[i].1 < 50
}

/// Where the room has at least as many open tiles as objects, every object ends up
/// on an open tile, and no two on one.
pub proof fn settled_on_distinct_open_tiles(walls: Seq<bool>, objs: Seq<(u8, u8)>)
    requires
        walls.len() == TILES,
        all_in_room(objs),
        objs.len() <= count_true(free_tiles(walls, seq![])),
    ensures
        settled(walls, objs).len() == objs.len(),
        all_in_room(settled(walls, objs)),
        forall|i: int|
            0 <= i < objs.len() ==> !walls[tile_index(
                (#[trigger] settled(walls, objs)[i]).0 as int,
                settled(walls, objs)[i].1 as int,
            )],
        forall|i: int, j: int|
            0 <= i < j < objs.len() ==> #[trigger] settled(walls, objs)[i] != #[trigger] settled(
                walls,
                objs,
            )[j],
        count_true(free_tiles(walls, settled(walls, objs))) >= count_true(
            free_tiles(walls, seq![]),
        ) - objs.len(),
    decreases objs.len(),
{
    if objs.len() > 0 {
        let head = objs.drop_last();
        assert forall|i: int| 0 <= i < head.len() implies (#[trigger] head[i]).0 < 50 && head[i].1
            < 50 by {
            assert(head[i] == objs[i]);
        }
        settled_on_distinct_open_tiles(walls, head);
        let before = settled(walls, head);
        let free = free_tiles(walls, before);
        let at = objs.last();
        assert(objs[objs.len() - 1] == at);
        lemma_count_zero(free);
        snap_is_nearest(free, at.0 as int, at.1 as int);
        let to = snapped(free, at.0 as int, at.1 as int);
        let t = (to.0 as u8, to.1 as u8);
        let k = tile_index(to.0, to.1);
        assert(free[k]);
        assert(k % 50 == to.0 && k / 50 == to.1);
        assert(!before.contains(t));
        lemma_free_after_take(walls, before, t);
        let all = settled(walls, objs);
        assert(all == before.push(t));
        assert forall|i: int, j: int| 0 <= i < j < objs.len() implies #[trigger] all[i]
            != #[trigger] all[j] by {
            if j == before.len() {
                assert(before.contains(before[i]));
            }
        }
    }
}

fn neighbour(x: i32, y: i32, k: usize) -> (r: (i32, i32))
    requires
        k < 8,
        0 <= x < 50,
        0 <= y < 50,
    ensures
        r.0 == x + spread(k as int).0,
        r.1 == y + spread(k as int).1,
{
    if k == 0 {
        (x + 1, y)
    } else if k == 1 {
        (x - 1, y)
    } else if k == 2 {
        (x, y + 1)
    } else if k == 3 {
        (x, y - 1)
    } else if k == 4 {
        (x + 1, y + 1)
    } else if k == 5 {
        (x - 1, y + 1)
    } else if k == 6 {
        (x + 1, y - 1)
    } else {
        (x - 1, y - 1)
    }
}

pub open spec fn as_tiles(q: Seq<(i32, i32)>) -> Seq<(int, int)> {
    Seq::new(q.len(), |i: int| (q[i].0 as int, q[i].1 as int))
}

fn search_open(free: &Vec<bool>, x: u8, y: u8) -> (r: (u8, u8))
    requires
        free@.len() == TILES,
    ensures
        (r.0 as int, r.1 as int) == snapped(free@, x as int, y as int),
{
    let ghost start = (x as int, y as int);
    let mut seen: Vec<bool> = no_flags(TILES);
    let mut q: Vec<(i32, i32)> = Vec::new();
    q.push((x as i32, y as i32));
    let mut h: usize = 0;
    assert(as_tiles(q@) =~= seq![start]);
    while h < q.len()
        invariant
            free@.len() == TILES,
            seen@.len() == TILES,
            h <= q@.len(),
            start == (x as int, y as int),
            search(free@, start, as_tiles(q@), h as int, seen@) == snapped(
                free@,
                x as int,
                y as int,
            ),
        decreases seen@.len() - count_true(seen@), q@.len() - h,
    {
        let c: (i32, i32) = q[h];
        assert(as_tiles(q@)[h as int] == (c.0 as int, c.1 as int));
        if 0 <= c.0 && c.0 < 50 && 0 <= c.1 && c.1 < 50 {
            let i: usize = c.1 as usize * 50 + c.0 as usize;
            if !seen[i] {
                if free[i] {
                    return (c.0 as u8, c.1 as u8);
                }
                let ghost q0 = as_tiles(q@);
                let ghost s0 = seen@;
                proof {
                    lemma_count_set(seen@, i as int, true);
                    lemma_count_bound(seen@.update(i as int, true));
                }
                seen.set(i, true);
                let ghost around = neighbours((c.0 as int, c.1 as int));
                assert(as_tiles(q@) =~= q0 + around.take(0));
                let mut k: usize = 0;
                while k < 8
                    invariant
                        k <= 8,
                        0 <= c.0 < 50,
                        0 <= c.1 < 50,
                        around == neighbours((c.0 as int, c.1 as int)),
                        as_tiles(q@) == q0 + around.take(k as int),
                    decreases 8 - k,
                {
                    let ghost before = as_tiles(q@);
                    let n: (i32, i32) = neighbour(c.0, c.1, k);
                    q.push(n);
                    assert(as_tiles(q@) =~= before.push((n.0 as int, n.1 as int)));
                    assert(around[k as int] == (n.0 as int, n.1 as int));
                    k = k + 1;
                    assert(q0 + around.take(k as int) =~= (q0 + around.take(k - 1)).push(
                        around[k - 1],
                    ));
                }
                assert(around.take(8) =~= around);
            }
        }
        h = h + 1;
    }
    (x, y)
}

fn tile_taken(taken: &Vec<(u8, u8)>, x: u8, y: u8) -> (r: bool)
    ensures
        r == taken@.contains((x, y)),
{
    let mut i: usize = 0;
    while i < taken.len()
        invariant
            i <= taken@.len(),
            forall|k: int| 0 <= k < i ==> #[trigger] taken@[k] != (x, y),
        decreases taken.len() - i,
    {
        let t: (u8, u8) = taken[i];
        if t.0 == x && t.1 == y {
            assert(taken@[i as int] == (x, y));
            return true;
        }
        i = i + 1;
    }
    false
}

/// The nearest tile that is neither a wall nor taken; the tile itself where there
/// is none.
pub fn snap_to_open(terrain: &CombatTerrain, x: u8, y: u8, taken: &Vec<(u8, u8)>) -> (r: (u8, u8))
    requires
        terrain@.wf(),
    ensures
        (r.0 as int, r.1 as int) == snapped(
            free_tiles(terrain@.walls, taken@),
            x as int,
            y as int,
        ),
{
    let ghost want = free_tiles(terrain@.walls, taken@);
    let mut free: Vec<bool> = Vec::new();
    let mut i: usize = 0;
    while i < TILES
        invariant
            i <= TILES,
            terrain@.wf(),
            want == free_tiles(terrain@.walls, taken@),
            free@ == want.take(i as int),
        decreases TILES - i,
    {
        free.push(!terrain.walls[i] && !tile_taken(taken, (i % 50) as u8, (i / 50) as u8));
        i = i + 1;
        assert(free@ =~= want.take(i as int));
    }
    assert(free@ =~= want);
    search_open(&free, x, y)
}

/// Moves objects onto open tiles one after another, no two onto one.
pub fn snap_objects(terrain: &CombatTerrain, objs: &Vec<(u8, u8)>) -> (r: Vec<(u8, u8)>)
    requires
        terrain@.wf(),
    ensures
        r@ == settled(terrain@.walls, objs@),
        r@.len() == objs@.len(),
{
    let mut out: Vec<(u8, u8)> = Vec::new();
    let mut i: usize = 0;
    assert(objs@.take(0) =~= Seq::<(u8, u8)>::empty());
    while i < objs.len()
        invariant
            i <= objs@.len(),
            terrain@.wf(),
            out@ == settled(terrain@.walls, objs@.take(i as int)),
            out@.len() == i,
        decreases objs.len() - i,
    {
        assert(objs@.take(i as int + 1).drop_last() =~= objs@.take(i as int));
        let at: (u8, u8) = objs[i];
        let to: (u8, u8) = snap_to_open(terrain, at.0, at.1, &out);
        out.push(to);
        i = i + 1;
    }
    assert(objs@.take(i as int) =~= objs@);
    out
}

/// A room's objects in the order in which they are moved: the controller, the
/// sources, the mineral.
pub open spec fn objects_of(
    controller: (u8, u8),
    sources: Seq<(u8, u8)>,
    mineral: Option<(u8, u8)>,
) -> Seq<(u8, u8)> {
    seq![controller] + sources + match mineral {
        Some(m) => seq![m],
        None => seq![],
    }
}

/// A room as it is stored, with its objects where they were recorded, becomes one
/// whose objects stand on open tiles.
pub fn align_fixture(raw: TerrainFixture) -> (f: TerrainFixture)
    ensures
        f.room@ == raw.room@,
        f.terrain@ == raw.terrain@,
        f.sources@.len() == raw.sources@.len(),
        f.mineral is Some <==> raw.mineral is Some,
        objects_of(f.controller, f.sources@, f.mineral) == settled(
            decoded(raw.terrain@).walls,
            objects_of(raw.controller, raw.sources@, raw.mineral),
        ),
{
    let terrain: CombatTerrain = decode_terrain(raw.terrain.as_str());
    let mut objs: Vec<(u8, u8)> = Vec::new();
    objs.push(raw.controller);
    let n: usize = raw.sources.len();
    let mut i: usize = 0;
    while i < n
        invariant
            n == raw.sources@.len(),
            i <= n,
            objs@ == seq![raw.controller] + raw.sources@.take(i as int),
        decreases n - i,
    {
        objs.push(raw.sources[i]);
        i = i + 1;
        assert(objs@ =~= seq![raw.controller] + raw.sources@.take(i as int));
    }
    if let Some(m) = raw.mineral {
        objs.push(m);
    }
    assert(objs@ =~= objects_of(raw.controller, raw.sources@, raw.mineral));
    let at: Vec<(u8, u8)> = snap_objects(&terrain, &objs);
    let mut sources: Vec<(u8, u8)> = Vec::new();
    let mut k: usize = 0;
    while k < n
        invariant
            n < at@.len(),
            k <= n,
            sources@ == at@.subrange(1, k as int + 1),
        decreases n - k,
    {
        sources.push(at[k + 1]);
        k = k + 1;
        assert(sources@ =~= at@.subrange(1, k as int + 1));
    }
    let mineral: Option<(u8, u8)> = if raw.mineral.is_some() {
        Some(at[at.len() - 1])
    } else {
        None
    };
    let f = TerrainFixture {
        room: raw.room,
        terrain: raw.terrain,
        controller: at[0],
        sources,
        mineral,
    };
    assert(objects_of(f.controller, f.sources@, f.mineral) =~= at@);
    f
}

/// Tiles are counted row by row, and every tile has a place of its own.
pub proof fn tiles_are_counted_by_rows(x: int, y: int, u: int, v: int)
    requires
        in_room(x, y),
        in_room(u, v),
    ensures
        0 <= tile_index(x, y) < 2500,
        tile_index(x, y) == tile_index(u, v) <==> x == u && y == v,
        tile_index(0, 0) == 0,
        tile_index(x + 1, y) == tile_index(x, y) + 1,
        tile_index(0, y + 1) == tile_index(49, y) + 1,
{
}

/// A tile shows the flag at its place, and nothing lies outside the room.
pub proof fn a_tile_shows_its_flags(t: TerrainView, x: int, y: int)
    ensures
        0 <= x <= 49 && 0 <= y <= 49 ==> t.wall_at(x, y) == t.walls[50 * y + x],
        0 <= x <= 49 && 0 <= y <= 49 ==> t.swamp_at(x, y) == t.swamps[50 * y + x],
        x < 0 || x > 49 || y < 0 || y > 49 ==> !t.wall_at(x, y) && !t.swamp_at(x, y),
{
}

/// Digits count up from 0, letters of either case from 10, and nothing else counts.
pub proof fn digits_are_hexadecimal(c: char)
    ensures
        hex_value('0') == 0,
        hex_value('a') == 10,
        hex_value('A') == 10,
        '0' <= c && c < '9' || 'a' <= c && c < 'f' || 'A' <= c && c < 'F' ==> hex_value(
            (c as int + 1) as char,
        ) == hex_value(c) + 1,
        c < '0' || '9' < c && c < 'A' || 'F' < c && c < 'a' || 'f' < c ==> hex_value(c) == 0,
{
}

/// The lowest bit of a digit marks a wall and the next a swamp, which a wall covers; what the
/// text does not reach is plain.
pub proof fn a_digit_shows_its_tile(s: Seq<char>, i: int)
    requires
        0 <= i < 2500,
    ensures
        i >= s.len() ==> !decoded(s).walls[i] && !decoded(s).swamps[i],
        i < s.len() ==> {
            let v = hex_value(s[i]);
            &&& v == 0 || v == 4 || v == 8 || v == 12 ==> !decoded(s).walls[i] && !decoded(
                s,
            ).swamps[i]
            &&& v == 2 || v == 6 || v == 10 || v == 14 ==> !decoded(s).walls[i] && decoded(
                s,
            ).swamps[i]
            &&& v % 4 == 1 || v % 4 == 3 ==> decoded(s).walls[i] && !decoded(s).swamps[i]
        },
        i < s.len() && s[i] == '1' ==> decoded(s).walls[i],
        i < s.len() && s[i] == '2' ==> decoded(s).swamps[i],
        i < s.len() && s[i] == '3' ==> decoded(s).walls[i] && !decoded(s).swamps[i],
{
}

/// The dense form has the digits of the text, of a room's tiles at most, and is read as the
/// text is.
pub proof fn the_dense_form_holds_the_digits(s: Seq<char>, b: Seq<u8>, i: int)
    requires
        0 <= i < 2500,
    ensures
        s.len() <= 2500 ==> fast_decoded(s).len() == s.len(),
        s.len() > 2500 ==> fast_decoded(s).len() == 2500,
        i < s.len() ==> fast_decoded(s)[i] == hex_value(s[i]),
        b[i] % 4 == 0 ==> !from_fast(b).walls[i] && !from_fast(b).swamps[i],
        b[i] % 4 == 2 ==> !from_fast(b).walls[i] && from_fast(b).swamps[i],
        b[i] % 2 == 1 ==> from_fast(b).walls[i] && !from_fast(b).swamps[i],
{
}

/// A room is written as 2500 characters: `1` for a wall, `2` for a swamp, `0` for neither.
pub proof fn a_tile_has_its_character(t: TerrainView, i: int)
    requires
        0 <= i < 2500,
    ensures
        encoded(t).len() == 2500,
        t.walls[i] <==> encoded(t)[i] == '1',
        t.swamps[i] && !t.walls[i] <==> encoded(t)[i] == '2',
        !t.swamps[i] && !t.walls[i] <==> encoded(t)[i] == '0',
{
}

/// A list of tiles has the flagged ones and no others, row by row.
pub proof fn flagged_tiles_are_listed(flags: Seq<bool>, n: int, x: u8, y: u8)
    requires
        flags.len() == TILES,
        0 <= n <= TILES,
        x < 50,
        y < 50,
    ensures
        listed(flags, n).contains((x, y)) <==> 50 * y + x < n && flags[50 * y + x],
        forall|i: int|
            0 <= i < listed(flags, n).len() ==> (#[trigger] listed(flags, n)[i]).0 < 50 && 50
                * listed(flags, n)[i].1 + listed(flags, n)[i].0 < n,
        forall|i: int, j: int|
            #![trigger listed(flags, n)[i], listed(flags, n)[j]]
            0 <= i < j < listed(flags, n).len() ==> 50 * listed(flags, n)[i].1 + listed(
                flags,
                n,
            )[i].0 < 50 * listed(flags, n)[j].1 + listed(flags, n)[j].0,
    decreases n,
{
    if n > 0 {
        flagged_tiles_are_listed(flags, n - 1, x, y);
        let before = listed(flags, n - 1);
        let all = listed(flags, n);
        let last = (((n - 1) % 50) as u8, ((n - 1) / 50) as u8);
        assert(50 * last.1 + last.0 == n - 1);
        if flags[n - 1] {
            assert(all == before.push(last));
            if before.contains((x, y)) {
                let k = choose|k: int| 0 <= k < before.len() && before[k] == (x, y);
                assert(all[k] == (x, y));
            }
            if 50 * y + x == n - 1 {
                assert((x, y) == last);
                assert(all[before.len() as int] == (x, y));
            }
            if all.contains((x, y)) {
                let k = choose|k: int| 0 <= k < all.len() && all[k] == (x, y);
                if k < before.len() {
                    assert(before[k] == (x, y));
                }
            }
            assert forall|i: int, j: int|
                #![trigger all[i], all[j]]
                0 <= i < j < all.len() implies 50 * all[i].1 + all[i].0 < 50 * all[j].1
                + all[j].0 by {
                assert(all[i] == before[i]);
                if j < before.len() {
                    assert(all[j] == before[j]);
                }
            }
        }
    }
}

/// A search spreads to the sides before the corners, and misses none of either.
pub proof fn a_search_spreads_to_every_side(c: (int, int), d: (int, int))
    ensures
        neighbours(c).len() == 8,
        neighbours(c)[0] == (c.0 + 1, c.1),
        neighbours(c)[1] == (c.0 - 1, c.1),
        neighbours(c)[2] == (c.0, c.1 + 1),
        neighbours(c)[3] == (c.0, c.1 - 1),
        neighbours(c)[4] == (c.0 + 1, c.1 + 1),
        neighbours(c)[5] == (c.0 - 1, c.1 + 1),
        neighbours(c)[6] == (c.0 + 1, c.1 - 1),
        neighbours(c)[7] == (c.0 - 1, c.1 - 1),
        neighbours(c).contains(d) <==> grid_dist(c.0, c.1, d.0, d.1) == 1,
{
    if grid_dist(c.0, c.1, d.0, d.1) == 1 {
        assert(d == neighbours(c)[0] || d == neighbours(c)[1] || d == neighbours(c)[2] || d
            == neighbours(c)[3] || d == neighbours(c)[4] || d == neighbours(c)[5] || d
            == neighbours(c)[6] || d == neighbours(c)[7]);
    }
}

/// A tile is free where there is no wall and nothing has taken it.
pub proof fn a_free_tile_is_open_and_untaken(
    walls: Seq<bool>,
    taken: Seq<(u8, u8)>,
    x: u8,
    y: u8,
)
    requires
        x < 50,
        y < 50,
    ensures
        free_tiles(walls, taken).len() == 2500,
        walls[50 * y + x] ==> !free_tiles(walls, taken)[50 * y + x],
        taken.contains((x, y)) ==> !free_tiles(walls, taken)[50 * y + x],
        !walls[50 * y + x] && !taken.contains((x, y)) ==> free_tiles(walls, taken)[50 * y + x],
{
    let i = 50 * y + x;
    assert(i % 50 == x && i / 50 == y);
}

/// Objects are moved one after another: each to where a search among the tiles that are left
/// to it ends. Those before it do not move again.
pub proof fn objects_settle_in_turn(walls: Seq<bool>, objs: Seq<(u8, u8)>, o: (u8, u8))
    ensures
        settled(walls, seq![]).len() == 0,
        settled(walls, objs.push(o)).drop_last() == settled(walls, objs),
        ({
            let free = Seq::new(
                2500,
                |i: int|
                    !walls[i] && !settled(walls, objs).contains(
                        ((i % 50) as u8, (i / 50) as u8),
                    ),
            );
            let to = snapped(free, o.0 as int, o.1 as int);
            settled(walls, objs.push(o)).last() == (to.0 as u8, to.1 as u8)
        }),
{
    assert(objs.push(o).drop_last() =~= objs);
    let before = settled(walls, objs);
    assert(free_tiles(walls, before) =~= Seq::new(
        2500,
        |i: int| !walls[i] && !before.contains(((i % 50) as u8, (i / 50) as u8)),
    ));
    assert(settled(walls, objs.push(o)).drop_last() =~= before);
}

/// The controller is moved first, then the sources in order, then the mineral.
pub proof fn the_controller_is_moved_first(
    controller: (u8, u8),
    sources: Seq<(u8, u8)>,
    mineral: Option<(u8, u8)>,
    i: int,
)
    ensures
        objects_of(controller, sources, mineral)[0] == controller,
        0 <= i < sources.len() ==> objects_of(controller, sources, mineral)[i + 1] == sources[i],
        mineral is None ==> objects_of(controller, sources, mineral).len() == sources.len() + 1,
        mineral is Some ==> {
            &&& objects_of(controller, sources, mineral).len() == sources.len() + 2
            &&& objects_of(controller, sources, mineral).last() == mineral->0
        },
{
}

} // verus!
