//! Replays of recorded engagements: the frames as JSON, and the page that plays them.

use crate::json::{lemma_joined_push, listed, push_list, texts_of, Shown};
use crate::lists::copied;
use crate::player::{PLAYER_JS, RENDERER_JS, SHELL_BODY, SHELL_HEAD, SHELL_STYLE};
use crate::position::{room_name_at, room_name_of, WPos};
use crate::text::{
    comma_joined, decimal, json_escaped, push_decimal, push_json, push_signed, signed_decimal,
};
use crate::world::{CombatWorld, PlayerId, StructureKind};
use vstd::prelude::*;
use vstd::string::*;

verus! {

/// A creep in a frame. The composition counts the working parts of each kind.
#[derive(Debug)]
pub struct FrameCreep {
    pub id: u32,
    pub pos: WPos,
    pub owner: PlayerId,
    pub hits: u32,
    pub hits_max: u32,
    pub composition: [u32; 7],
}

/// A structure in a frame.
#[derive(Debug)]
pub struct FrameStructure {
    pub pos: WPos,
    pub kind: StructureKind,
    pub owner: Option<PlayerId>,
    pub hits: u32,
    pub hits_max: u32,
}

/// A tower in a frame.
#[derive(Debug)]
pub struct FrameTower {
    pub pos: WPos,
    pub owner: PlayerId,
    pub energy: u32,
    pub hits: u32,
}

/// What a creep did in a tick: its actions and its move in words, and why.
#[derive(Debug)]
pub struct IntentRecord {
    pub id: u32,
    pub actions: Option<String>,
    pub mv: Option<String>,
    pub reason: Option<String>,
}

/// One tick of a recording.
#[derive(Debug)]
pub struct Frame {
    pub tick: u32,
    pub creeps: Vec<FrameCreep>,
    pub structures: Vec<FrameStructure>,
    pub towers: Vec<FrameTower>,
    pub intents: Vec<IntentRecord>,
    /// Creeps that died.
    pub deaths: Vec<u32>,
    pub destroyed_structures: Vec<u32>,
}

/// A recorded engagement.
#[derive(Debug)]
pub struct CombatRecording {
    pub frames: Vec<Frame>,
}

/// A room's walls and swamps.
#[derive(Debug)]
pub struct RoomTerrain {
    pub room: (i32, i32),
    pub walls: Vec<(u8, u8)>,
    pub swamps: Vec<(u8, u8)>,
}

/// The backdrop of one room.
#[derive(Clone, Debug)]
pub struct RoomLayout {
    pub name: String,
    pub walls: Vec<(u8, u8)>,
    pub swamps: Vec<(u8, u8)>,
}

/// What the player needs besides the frames.
#[derive(Clone, Debug)]
pub struct ReplayMeta {
    pub title: String,
    pub verdict: Option<String>,
    pub rooms: Vec<RoomLayout>,
}

/// The drawings of the structures, as JSON.
#[derive(Debug)]
pub struct Shapes {
    pub spawn: String,
    pub tower: String,
    pub rampart: String,
    pub wall: String,
}

impl CombatRecording {
    /// Everything in it stands on a tile of the game world.
    pub open spec fn wf(self) -> bool {
        forall|i: int| 0 <= i < self.frames@.len() ==> (#[trigger] self.frames@[i]).wf()
    }

    /// A recording without frames.
    pub fn new() -> (r: CombatRecording)
        ensures
            r.frames@.len() == 0,
            r.wf(),
    {
        CombatRecording { frames: Vec::new() }
    }
}

impl Frame {
    pub open spec fn wf(self) -> bool {
        &&& forall|i: int|
            0 <= i < self.creeps@.len() ==> (#[trigger] self.creeps@[i]).pos.in_world()
        &&& forall|i: int|
            0 <= i < self.structures@.len() ==> (#[trigger] self.structures@[i]).pos.in_world()
        &&& forall|i: int|
            0 <= i < self.towers@.len() ==> (#[trigger] self.towers@[i]).pos.in_world()
    }
}

// Which rooms a replay shows.

/// Texts in the order of their characters.
pub open spec fn precedes(a: Seq<char>, b: Seq<char>) -> bool
    decreases a.len(),
{
    if b.len() == 0 {
        false
    } else if a.len() == 0 {
        true
    } else if a[0] != b[0] {
        a[0] < b[0]
    } else {
        precedes(a.drop_first(), b.drop_first())
    }
}

proof fn lemma_precedes_order(a: Seq<char>, b: Seq<char>)
    ensures
        precedes(a, b) ==> !precedes(b, a) && a != b,
        a != b ==> precedes(a, b) || precedes(b, a),
    decreases a.len(),
{
    if a.len() > 0 && b.len() > 0 && a[0] == b[0] {
        lemma_precedes_order(a.drop_first(), b.drop_first());
        if a.drop_first() == b.drop_first() {
            assert(a =~= seq![a[0]] + a.drop_first());
            assert(b =~= seq![b[0]] + b.drop_first());
        }
    } else if a.len() == 0 && b.len() == 0 {
        assert(a =~= b);
    }
}

proof fn lemma_precedes_transitive(a: Seq<char>, b: Seq<char>, c: Seq<char>)
    requires
        precedes(a, b),
        precedes(b, c),
    ensures
        precedes(a, c),
    decreases a.len(),
{
    if a.len() > 0 && a[0] == b[0] && b[0] == c[0] {
        lemma_precedes_transitive(a.drop_first(), b.drop_first(), c.drop_first());
    }
}

fn text_precedes(a: &str, b: &str) -> (r: bool)
    ensures
        r == precedes(a@, b@),
{
    let n: usize = a.unicode_len();
    let m: usize = b.unicode_len();
    let mut i: usize = 0;
    assert(a@.skip(0) =~= a@);
    assert(b@.skip(0) =~= b@);
    while i < n && i < m
        invariant
            i <= n,
            i <= m,
            n == a@.len(),
            m == b@.len(),
            precedes(a@.skip(i as int), b@.skip(i as int)) == precedes(a@, b@),
        decreases n - i,
    {
        let x: char = a.get_char(i);
        let y: char = b.get_char(i);
        if x != y {
            return x < y;
        }
        assert(a@.skip(i as int).drop_first() =~= a@.skip(i as int + 1));
        assert(b@.skip(i as int).drop_first() =~= b@.skip(i as int + 1));
        i = i + 1;
    }
    i < m
}

/// The first terrain given for a room.
pub open spec fn terrain_in(ts: Seq<RoomTerrain>, room: (int, int)) -> Option<RoomTerrain>
    decreases ts.len(),
{
    if ts.len() == 0 {
        None
    } else {
        match terrain_in(ts.drop_last(), room) {
            Some(t) => Some(t),
            None => if ts.last().room.0 == room.0 && ts.last().room.1 == room.1 {
                Some(ts.last())
            } else {
                None
            },
        }
    }
}

/// The backdrop of a room: its name and its terrain, open where none is given.
pub open spec fn is_backdrop(r: RoomLayout, room: (int, int), ts: Seq<RoomTerrain>) -> bool {
    &&& r.name@ == room_name_of(room)
    &&& match terrain_in(ts, room) {
        Some(t) => r.walls@ == t.walls@ && r.swamps@ == t.swamps@,
        None => r.walls@.len() == 0 && r.swamps@.len() == 0,
    }
}

/// The backdrops of the rooms that hold these tiles, one each, in order of name.
pub open spec fn are_backdrops(
    rooms: Seq<RoomLayout>,
    tiles: Seq<WPos>,
    ts: Seq<RoomTerrain>,
) -> bool {
    &&& forall|i: int, j: int|
        0 <= i < j < rooms.len() ==> precedes(
            (#[trigger] rooms[i]).name@,
            (#[trigger] rooms[j]).name@,
        )
    &&& forall|k: int|
        0 <= k < tiles.len() ==> has_room(rooms, room_name_of((#[trigger] tiles[k]).room_of()))
    &&& forall|i: int| 0 <= i < rooms.len() ==> backs_some(#[trigger] rooms[i], tiles, ts)
}

pub open spec fn has_room(rooms: Seq<RoomLayout>, name: Seq<char>) -> bool {
    exists|i: int| 0 <= i < rooms.len() && (#[trigger] rooms[i]).name@ == name
}

pub open spec fn backs_some(r: RoomLayout, tiles: Seq<WPos>, ts: Seq<RoomTerrain>) -> bool {
    exists|k: int|
        0 <= k < tiles.len() && is_backdrop(r, (#[trigger] tiles[k]).room_of(), ts)
}

fn backdrop(name: String, room: (i32, i32), ts: &Vec<RoomTerrain>) -> (r: RoomLayout)
    requires
        name@ == room_name_of((room.0 as int, room.1 as int)),
    ensures
        is_backdrop(r, (room.0 as int, room.1 as int), ts@),
{
    let ghost at = (room.0 as int, room.1 as int);
    let mut i: usize = 0;
    assert(ts@.take(0) =~= Seq::<RoomTerrain>::empty());
    while i < ts.len()
        invariant
            i <= ts@.len(),
            at == (room.0 as int, room.1 as int),
            name@ == room_name_of(at),
            terrain_in(ts@.take(i as int), at) is None,
        decreases ts.len() - i,
    {
        assert(ts@.take(i as int + 1).drop_last() =~= ts@.take(i as int));
        if ts[i].room.0 == room.0 && ts[i].room.1 == room.1 {
            proof {
                lemma_terrain_found(ts@, at, i as int + 1);
            }
            let walls: Vec<(u8, u8)> = copied(&ts[i].walls);
            let swamps: Vec<(u8, u8)> = copied(&ts[i].swamps);
            return RoomLayout { name, walls, swamps };
        }
        i = i + 1;
    }
    assert(ts@.take(i as int) =~= ts@);
    RoomLayout { name, walls: Vec::new(), swamps: Vec::new() }
}

/// What the first terrains already hold, all of them hold.
proof fn lemma_terrain_found(ts: Seq<RoomTerrain>, room: (int, int), n: int)
    requires
        0 <= n <= ts.len(),
        terrain_in(ts.take(n), room) is Some,
    ensures
        terrain_in(ts, room) == terrain_in(ts.take(n), room),
    decreases ts.len(),
{
    if n == ts.len() {
        assert(ts.take(n) =~= ts);
    } else {
        assert(ts.drop_last().take(n) =~= ts.take(n));
        lemma_terrain_found(ts.drop_last(), room, n);
    }
}

/// The backdrops of the rooms that hold these tiles.
fn backdrops(tiles: &Vec<WPos>, ts: &Vec<RoomTerrain>) -> (rooms: Vec<RoomLayout>)
    requires
        forall|k: int| 0 <= k < tiles@.len() ==> (#[trigger] tiles@[k]).in_world(),
    ensures
        are_backdrops(rooms@, tiles@, ts@),
{
    let mut rooms: Vec<RoomLayout> = Vec::new();
    let mut i: usize = 0;
    while i < tiles.len()
        invariant
            i <= tiles@.len(),
            forall|k: int| 0 <= k < tiles@.len() ==> (#[trigger] tiles@[k]).in_world(),
            are_backdrops(rooms@, tiles@.take(i as int), ts@),
        decreases tiles.len() - i,
    {
        let tile: WPos = tiles[i];
        let name: String = room_name_at(tile);
        let mut at: usize = 0;
        while at < rooms.len() && text_precedes(rooms[at].name.as_str(), name.as_str())
            invariant
                at <= rooms@.len(),
                forall|k: int| 0 <= k < at ==> precedes((#[trigger] rooms@[k]).name@, name@),
            decreases rooms.len() - at,
        {
            at = at + 1;
        }
        let ghost before = rooms@;
        let ghost seen = tiles@.take(i as int);
        let ghost now = tiles@.take(i as int + 1);
        assert(now =~= seen.push(tile));
        let known: bool = if at < rooms.len() {
            rooms[at].name.eq(&name)
        } else {
            false
        };
        if !known {
            let room: (i32, i32) = tile.room();
            assert(tile.room_of() == (room.0 as int, room.1 as int));
            let ghost wanted = name@;
            let r: RoomLayout = backdrop(name, room, ts);
            rooms.insert(at, r);
            proof {
                lemma_inserted(before, at as int, r);
                assert(rooms@[at as int] == r);
                assert forall|j: int| 0 <= j < rooms@.len() implies backs_some(
                    #[trigger] rooms@[j],
                    now,
                    ts@,
                ) by {
                    if j == at {
                        assert(is_backdrop(r, now[i as int].room_of(), ts@));
                    } else {
                        let old_at = if j < at {
                            j
                        } else {
                            j - 1
                        };
                        assert(rooms@[j] == before[old_at]);
                        assert(backs_some(before[old_at], seen, ts@));
                        let k = choose|k: int|
                            0 <= k < seen.len() && is_backdrop(
                                before[old_at],
                                (#[trigger] seen[k]).room_of(),
                                ts@,
                            );
                        assert(now[k] == seen[k]);
                    }
                }
                assert forall|k: int| 0 <= k < now.len() implies has_room(
                    rooms@,
                    room_name_of((#[trigger] now[k]).room_of()),
                ) by {
                    if k == i {
                        assert(rooms@[at as int].name@ == wanted);
                    } else {
                        assert(now[k] == seen[k]);
                        let n = room_name_of(seen[k].room_of());
                        assert(has_room(before, n));
                        let j = choose|j: int|
                            0 <= j < before.len() && (#[trigger] before[j]).name@ == n;
                        if j < at {
                            assert(rooms@[j] == before[j]);
                        } else {
                            assert(rooms@[j + 1] == before[j]);
                        }
                    }
                }
            }
        } else {
            proof {
                assert forall|j: int| 0 <= j < rooms@.len() implies backs_some(
                    #[trigger] rooms@[j],
                    now,
                    ts@,
                ) by {
                    assert(backs_some(before[j], seen, ts@));
                    let k = choose|k: int|
                        0 <= k < seen.len() && is_backdrop(
                            before[j],
                            (#[trigger] seen[k]).room_of(),
                            ts@,
                        );
                    assert(now[k] == seen[k]);
                }
                assert forall|k: int| 0 <= k < now.len() implies has_room(
                    rooms@,
                    room_name_of((#[trigger] now[k]).room_of()),
                ) by {
                    if k == i {
                        assert(rooms@[at as int].name@ == name@);
                    } else {
                        assert(now[k] == seen[k]);
                    }
                }
            }
        }
        i = i + 1;
    }
    assert(tiles@.take(i as int) =~= tiles@);
    rooms
}

/// A room put behind all that precede it, where it is not there yet, keeps the order.
proof fn lemma_inserted(s: Seq<RoomLayout>, at: int, r: RoomLayout)
    requires
        0 <= at <= s.len(),
        forall|i: int, j: int|
            0 <= i < j < s.len() ==> precedes((#[trigger] s[i]).name@, (#[trigger] s[j]).name@),
        forall|k: int| 0 <= k < at ==> precedes((#[trigger] s[k]).name@, r.name@),
        at < s.len() ==> !precedes(s[at].name@, r.name@) && s[at].name@ != r.name@,
    ensures
        forall|i: int, j: int|
            0 <= i < j < s.len() + 1 ==> precedes(
                (#[trigger] s.insert(at, r)[i]).name@,
                (#[trigger] s.insert(at, r)[j]).name@,
            ),
{
    let t = s.insert(at, r);
    assert forall|i: int, j: int| 0 <= i < j < s.len() + 1 implies precedes(
        (#[trigger] t[i]).name@,
        (#[trigger] t[j]).name@,
    ) by {
        if j < at {
            assert(precedes(s[i].name@, s[j].name@));
        } else if j == at {
            assert(precedes(s[i].name@, r.name@));
        } else if i > at {
            assert(precedes(s[i - 1].name@, s[j - 1].name@));
        } else {
            lemma_precedes_order(s[at].name@, r.name@);
            if i == at {
                if j - 1 > at {
                    lemma_precedes_transitive(r.name@, s[at].name@, s[j - 1].name@);
                }
            } else {
                assert(precedes(s[i].name@, s[j - 1].name@));
            }
        }
    }
}

/// Where the things of a world stand: creeps, structures, towers.
pub open spec fn world_tiles(w: CombatWorld) -> Seq<WPos> {
    Seq::new(w.creeps@.len(), |i: int| w.creeps@[i].pos) + Seq::new(
        w.structures@.len(),
        |i: int| w.structures@[i].pos,
    ) + Seq::new(w.towers@.len(), |i: int| w.towers@[i].pos)
}

/// Where the creeps of the frames stand.
pub open spec fn frame_tiles(frames: Seq<Frame>) -> Seq<WPos>
    decreases frames.len(),
{
    if frames.len() == 0 {
        seq![]
    } else {
        let f = frames.last();
        frame_tiles(frames.drop_last()) + Seq::new(f.creeps@.len(), |i: int| f.creeps@[i].pos)
    }
}

fn list_world_tiles(w: &CombatWorld) -> (r: Vec<WPos>)
    requires
        w.wf(),
    ensures
        r@ == world_tiles(*w),
        forall|k: int| 0 <= k < r@.len() ==> (#[trigger] r@[k]).in_world(),
{
    let ghost a = Seq::new(w.creeps@.len(), |i: int| w.creeps@[i].pos);
    let ghost b = Seq::new(w.structures@.len(), |i: int| w.structures@[i].pos);
    let ghost c = Seq::new(w.towers@.len(), |i: int| w.towers@[i].pos);
    let mut out: Vec<WPos> = Vec::new();
    let mut i: usize = 0;
    while i < w.creeps.len()
        invariant
            w.wf(),
            i <= w.creeps@.len(),
            a == Seq::new(w.creeps@.len(), |k: int| w.creeps@[k].pos),
            out@ == a.take(i as int),
            forall|k: int| 0 <= k < out@.len() ==> (#[trigger] out@[k]).in_world(),
        decreases w.creeps.len() - i,
    {
        out.push(w.creeps[i].pos);
        i = i + 1;
        assert(out@ =~= a.take(i as int));
    }
    let mut j: usize = 0;
    assert(out@ =~= a + b.take(0));
    while j < w.structures.len()
        invariant
            w.wf(),
            j <= w.structures@.len(),
            b == Seq::new(w.structures@.len(), |k: int| w.structures@[k].pos),
            out@ == a + b.take(j as int),
            forall|k: int| 0 <= k < out@.len() ==> (#[trigger] out@[k]).in_world(),
        decreases w.structures.len() - j,
    {
        out.push(w.structures[j].pos);
        j = j + 1;
        assert(out@ =~= a + b.take(j as int));
    }
    let mut m: usize = 0;
    assert(out@ =~= a + b + c.take(0));
    while m < w.towers.len()
        invariant
            w.wf(),
            m <= w.towers@.len(),
            c == Seq::new(w.towers@.len(), |k: int| w.towers@[k].pos),
            out@ == a + b + c.take(m as int),
            forall|k: int| 0 <= k < out@.len() ==> (#[trigger] out@[k]).in_world(),
        decreases w.towers.len() - m,
    {
        out.push(w.towers[m].pos);
        m = m + 1;
        assert(out@ =~= a + b + c.take(m as int));
    }
    assert(out@ =~= world_tiles(*w));
    out
}

fn append_frame_tiles(rec: &CombatRecording, out: &mut Vec<WPos>)
    requires
        rec.wf(),
        forall|k: int| 0 <= k < old(out)@.len() ==> (#[trigger] old(out)@[k]).in_world(),
    ensures
        final(out)@ == old(out)@ + frame_tiles(rec.frames@),
        forall|k: int| 0 <= k < final(out)@.len() ==> (#[trigger] final(out)@[k]).in_world(),
{
    let ghost base = out@;
    let mut i: usize = 0;
    assert(rec.frames@.take(0) =~= Seq::<Frame>::empty());
    assert(out@ =~= base + frame_tiles(rec.frames@.take(0)));
    while i < rec.frames.len()
        invariant
            rec.wf(),
            i <= rec.frames@.len(),
            out@ == base + frame_tiles(rec.frames@.take(i as int)),
            forall|k: int| 0 <= k < out@.len() ==> (#[trigger] out@[k]).in_world(),
        decreases rec.frames.len() - i,
    {
        let f: &Frame = &rec.frames[i];
        let ghost before = out@;
        let ghost a = Seq::new(f.creeps@.len(), |k: int| f.creeps@[k].pos);
        assert(f.wf());
        let mut j: usize = 0;
        assert(out@ =~= before + a.take(0));
        while j < f.creeps.len()
            invariant
                f.wf(),
                j <= f.creeps@.len(),
                a == Seq::new(f.creeps@.len(), |k: int| f.creeps@[k].pos),
                out@ == before + a.take(j as int),
                forall|k: int| 0 <= k < out@.len() ==> (#[trigger] out@[k]).in_world(),
            decreases f.creeps.len() - j,
        {
            out.push(f.creeps[j].pos);
            j = j + 1;
            assert(out@ =~= before + a.take(j as int));
        }
        assert(rec.frames@.take(i as int + 1).drop_last() =~= rec.frames@.take(i as int));
        i = i + 1;
        assert(out@ =~= base + frame_tiles(rec.frames@.take(i as int)));
    }
    assert(rec.frames@.take(i as int) =~= rec.frames@);
}

impl ReplayMeta {
    /// The rooms that hold the things of a world.
    pub fn from_world(
        world: &CombatWorld,
        terrain: &Vec<RoomTerrain>,
        title: &str,
        verdict: Option<String>,
    ) -> (m: ReplayMeta)
        requires
            world.wf(),
        ensures
            m.title@ == title@,
            m.verdict == verdict,
            are_backdrops(m.rooms@, world_tiles(*world), terrain@),
    {
        let tiles: Vec<WPos> = list_world_tiles(world);
        let rooms: Vec<RoomLayout> = backdrops(&tiles, terrain);
        ReplayMeta { title: String::from_str(title), verdict, rooms }
    }

    /// The rooms that hold the things of a world, and those that its creeps came
    /// through in a recording.
    pub fn from_world_and_recording(
        world: &CombatWorld,
        rec: &CombatRecording,
        terrain: &Vec<RoomTerrain>,
        title: &str,
        verdict: Option<String>,
    ) -> (m: ReplayMeta)
        requires
            world.wf(),
            rec.wf(),
        ensures
            m.title@ == title@,
            m.verdict == verdict,
            are_backdrops(
                m.rooms@,
                world_tiles(*world) + frame_tiles(rec.frames@),
                terrain@,
            ),
    {
        let mut tiles: Vec<WPos> = list_world_tiles(world);
        append_frame_tiles(rec, &mut tiles);
        let rooms: Vec<RoomLayout> = backdrops(&tiles, terrain);
        ReplayMeta { title: String::from_str(title), verdict, rooms }
    }
}

// The frames as JSON.

/// No room is shown twice.
pub proof fn rooms_are_shown_once(
    rooms: Seq<RoomLayout>,
    tiles: Seq<WPos>,
    ts: Seq<RoomTerrain>,
    i: int,
    j: int,
)
    requires
        are_backdrops(rooms, tiles, ts),
        0 <= i < j < rooms.len(),
    ensures
        rooms[i].name@ != rooms[j].name@,
{
    lemma_precedes_order(rooms[i].name@, rooms[j].name@);
}

/// The place of the first room with a name; -1 where there is none.
pub open spec fn room_index(rooms: Seq<RoomLayout>, name: Seq<char>) -> int
    decreases rooms.len(),
{
    if rooms.len() == 0 {
        -1
    } else {
        let before = room_index(rooms.drop_last(), name);
        if before >= 0 {
            before
        } else if rooms.last().name@ == name {
            rooms.len() - 1
        } else {
            -1
        }
    }
}

/// Every tile that a replay's rooms were made for has one of them.
pub proof fn shown_tiles_have_a_room(
    rooms: Seq<RoomLayout>,
    tiles: Seq<WPos>,
    ts: Seq<RoomTerrain>,
    k: int,
)
    requires
        are_backdrops(rooms, tiles, ts),
        0 <= k < tiles.len(),
    ensures
        0 <= room_index(rooms, room_name_of(tiles[k].room_of())) < rooms.len(),
{
    let n = room_name_of(tiles[k].room_of());
    assert(has_room(rooms, n));
    let i = choose|i: int| 0 <= i < rooms.len() && (#[trigger] rooms[i]).name@ == n;
    lemma_room_index(rooms, n, i);
}

proof fn lemma_room_index(rooms: Seq<RoomLayout>, name: Seq<char>, i: int)
    ensures
        -1 <= room_index(rooms, name) < rooms.len(),
        0 <= i < rooms.len() && rooms[i].name@ == name ==> room_index(rooms, name) >= 0,
    decreases rooms.len(),
{
    if rooms.len() > 0 {
        lemma_room_index(rooms.drop_last(), name, i);
    }
}

fn find_room(rooms: &Vec<RoomLayout>, name: &String) -> (r: Option<usize>)
    ensures
        room_index(rooms@, name@) == match r {
            Some(i) => i as int,
            None => -1,
        },
{
    let mut i: usize = 0;
    assert(rooms@.take(0) =~= Seq::<RoomLayout>::empty());
    while i < rooms.len()
        invariant
            i <= rooms@.len(),
            room_index(rooms@.take(i as int), name@) == -1,
        decreases rooms.len() - i,
    {
        assert(rooms@.take(i as int + 1).drop_last() =~= rooms@.take(i as int));
        if rooms[i].name.eq(name) {
            proof {
                lemma_index_found(rooms@, name@, i as int + 1);
            }
            return Some(i);
        }
        i = i + 1;
    }
    assert(rooms@.take(i as int) =~= rooms@);
    None
}

proof fn lemma_index_found(rooms: Seq<RoomLayout>, name: Seq<char>, n: int)
    requires
        0 <= n <= rooms.len(),
        room_index(rooms.take(n), name) >= 0,
    ensures
        room_index(rooms, name) == room_index(rooms.take(n), name),
    decreases rooms.len(),
{
    if n == rooms.len() {
        assert(rooms.take(n) =~= rooms);
    } else {
        assert(rooms.drop_last().take(n) =~= rooms.take(n));
        lemma_index_found(rooms.drop_last(), name, n);
    }
}

/// The room and the offset of a tile: `room,x,y`.
pub open spec fn place_text(rooms: Seq<RoomLayout>, p: WPos) -> Seq<char> {
    signed_decimal(room_index(rooms, room_name_of(p.room_of()))) + seq![','] + decimal(
        (p.wx as int % 50) as nat,
    ) + seq![','] + decimal((p.wy as int % 50) as nat)
}

fn push_place(rooms: &Vec<RoomLayout>, p: WPos, out: &mut String)
    requires
        p.in_world(),
    ensures
        final(out)@ == old(out)@ + place_text(rooms@, p),
{
    let ghost before = out@;
    let name: String = room_name_at(p);
    let room: (i32, i32) = p.room();
    match find_room(rooms, &name) {
        Some(i) => {
            push_decimal(out, i as u64);
        },
        None => {
            push_signed(out, -1);
        },
    }
    out.push(',');
    push_decimal(out, (p.wx - 50 * room.0) as u64);
    out.push(',');
    push_decimal(out, (p.wy - 50 * room.1) as u64);
    assert(out@ =~= before + place_text(rooms@, p));
}

pub open spec fn parts_of(c: [u32; 7]) -> Seq<Seq<char>> {
    Seq::new(7, |i: int| decimal(c[i] as nat))
}

/// `[id,room,x,y,owner,hits,hits_max,[parts]]`.
impl Shown<Vec<RoomLayout>> for FrameCreep {
    open spec fn shown(&self, c: Vec<RoomLayout>) -> Seq<char> {
        seq!['['] + decimal(self.id as nat) + seq![','] + place_text(c@, self.pos) + seq![',']
            + decimal(self.owner as nat) + seq![','] + decimal(self.hits as nat) + seq![',']
            + decimal(self.hits_max as nat) + seq![','] + listed(parts_of(self.composition))
            + seq![']']
    }

    open spec fn showable(&self, c: Vec<RoomLayout>) -> bool {
        self.pos.in_world()
    }

    fn show(&self, c: &Vec<RoomLayout>, out: &mut String) {
        let ghost before = out@;
        out.push('[');
        push_decimal(out, self.id as u64);
        out.push(',');
        push_place(c, self.pos, out);
        out.push(',');
        push_decimal(out, self.owner as u64);
        out.push(',');
        push_decimal(out, self.hits as u64);
        out.push(',');
        push_decimal(out, self.hits_max as u64);
        out.push(',');
        push_parts(&self.composition, out);
        out.push(']');
        assert(out@ =~= before + self.shown(*c));
    }
}

fn push_parts(c: &[u32; 7], out: &mut String)
    ensures
        final(out)@ == old(out)@ + listed(parts_of(*c)),
{
    let ghost base = out@ + seq!['['];
    let ghost want = parts_of(*c);
    out.push('[');
    let mut i: usize = 0;
    assert(want.take(0) =~= Seq::<Seq<char>>::empty());
    assert(out@ =~= base + comma_joined(want.take(0)));
    while i < 7
        invariant
            i <= 7,
            want == parts_of(*c),
            out@ == base + comma_joined(want.take(i as int)),
        decreases 7 - i,
    {
        proof {
            lemma_joined_push(want.take(i as int), want[i as int]);
            assert(want.take(i as int + 1) =~= want.take(i as int).push(want[i as int]));
        }
        if i > 0 {
            out.push(',');
        }
        push_decimal(out, c[i] as u64);
        assert(out@ =~= base + comma_joined(want.take(i as int + 1)));
        i = i + 1;
    }
    assert(want.take(i as int) =~= want);
    out.push(']');
    assert(out@ =~= old(out)@ + listed(want));
}

/// The drawing of a structure: a core is drawn as a spawn.
pub open spec fn drawing(kind: StructureKind) -> nat {
    match kind {
        StructureKind::Spawn => 0,
        StructureKind::Tower => 1,
        StructureKind::Rampart => 2,
        StructureKind::Wall => 3,
        StructureKind::InvaderCore => 0,
    }
}

/// The place of a structure's drawing among the shapes.
pub fn kind_index(kind: StructureKind) -> (r: u8)
    ensures
        r == drawing(kind),
{
    match kind {
        StructureKind::Spawn => 0,
        StructureKind::Tower => 1,
        StructureKind::Rampart => 2,
        StructureKind::Wall => 3,
        StructureKind::InvaderCore => 0,
    }
}

/// `[room,x,y,drawing,owner,hits,hits_max]`, with -1 for no owner.
impl Shown<Vec<RoomLayout>> for FrameStructure {
    open spec fn shown(&self, c: Vec<RoomLayout>) -> Seq<char> {
        seq!['['] + place_text(c@, self.pos) + seq![','] + decimal(drawing(self.kind)) + seq![',']
            + signed_decimal(
            match self.owner {
                Some(o) => o as int,
                None => -1,
            },
        ) + seq![','] + decimal(self.hits as nat) + seq![','] + decimal(self.hits_max as nat)
            + seq![']']
    }

    open spec fn showable(&self, c: Vec<RoomLayout>) -> bool {
        self.pos.in_world()
    }

    fn show(&self, c: &Vec<RoomLayout>, out: &mut String) {
        let ghost before = out@;
        let owner: i64 = match self.owner {
            Some(o) => o as i64,
            None => -1,
        };
        out.push('[');
        push_place(c, self.pos, out);
        out.push(',');
        push_decimal(out, kind_index(self.kind) as u64);
        out.push(',');
        push_signed(out, owner);
        out.push(',');
        push_decimal(out, self.hits as u64);
        out.push(',');
        push_decimal(out, self.hits_max as u64);
        out.push(']');
        assert(out@ =~= before + self.shown(*c));
    }
}

/// `[room,x,y,owner,energy,hits]`.
impl Shown<Vec<RoomLayout>> for FrameTower {
    open spec fn shown(&self, c: Vec<RoomLayout>) -> Seq<char> {
        seq!['['] + place_text(c@, self.pos) + seq![','] + decimal(self.owner as nat) + seq![',']
            + decimal(self.energy as nat) + seq![','] + decimal(self.hits as nat) + seq![']']
    }

    open spec fn showable(&self, c: Vec<RoomLayout>) -> bool {
        self.pos.in_world()
    }

    fn show(&self, c: &Vec<RoomLayout>, out: &mut String) {
        let ghost before = out@;
        out.push('[');
        push_place(c, self.pos, out);
        out.push(',');
        push_decimal(out, self.owner as u64);
        out.push(',');
        push_decimal(out, self.energy as u64);
        out.push(',');
        push_decimal(out, self.hits as u64);
        out.push(']');
        assert(out@ =~= before + self.shown(*c));
    }
}

/// A room with its name, walls and swamps.
impl Shown<()> for RoomLayout {
    open spec fn shown(&self, c: ()) -> Seq<char> {
        "{\"name\":\""@ + json_escaped(self.name@) + "\",\"walls\":"@ + listed(
            texts_of(self.walls@, ()),
        ) + ",\"swamps\":"@ + listed(texts_of(self.swamps@, ())) + "}"@
    }

    open spec fn showable(&self, c: ()) -> bool {
        true
    }

    fn show(&self, c: &(), out: &mut String) {
        let ghost before = out@;
        out.append("{\"name\":\"");
        push_json(out, self.name.as_str());
        out.append("\",\"walls\":");
        push_list(&self.walls, &(), out);
        out.append(",\"swamps\":");
        push_list(&self.swamps, &(), out);
        out.append("}");
        assert(out@ =~= before + self.shown(*c));
    }
}

impl ReplayMeta {
    /// The title, the verdict and the rooms as JSON.
    pub open spec fn json(self) -> Seq<char> {
        "{\"title\":\""@ + json_escaped(self.title@) + "\",\"verdict\":"@ + (match self.verdict {
            Some(v) => seq!['"'] + json_escaped(v@) + seq!['"'],
            None => "null"@,
        }) + ",\"rooms\":"@ + listed(texts_of(self.rooms@, ())) + "}"@
    }

    /// The title, the verdict and the rooms as JSON.
    pub fn meta_json(&self) -> (r: String)
        ensures
            r@ == self.json(),
    {
        let mut out: String = String::from_str("{\"title\":\"");
        push_json(&mut out, self.title.as_str());
        out.append("\",\"verdict\":");
        match &self.verdict {
            Some(v) => {
                out.push('"');
                push_json(&mut out, v.as_str());
                out.push('"');
            },
            None => {
                out.append("null");
            },
        }
        out.append(",\"rooms\":");
        push_list(&self.rooms, &(), &mut out);
        out.append("}");
        assert(out@ =~= self.json());
        out
    }
}

/// Ids as a list with a blank behind each comma.
pub open spec fn ids_text(ids: Seq<u32>) -> Seq<char> {
    seq!['['] + spaced(ids) + seq![']']
}

pub open spec fn spaced(ids: Seq<u32>) -> Seq<char>
    decreases ids.len(),
{
    if ids.len() == 0 {
        seq![]
    } else if ids.len() == 1 {
        decimal(ids[0] as nat)
    } else {
        spaced(ids.drop_last()) + ", "@ + decimal(ids.last() as nat)
    }
}

fn push_ids(ids: &Vec<u32>, out: &mut String)
    ensures
        final(out)@ == old(out)@ + ids_text(ids@),
{
    let ghost base = out@ + seq!['['];
    out.push('[');
    let mut i: usize = 0;
    assert(ids@.take(0) =~= Seq::<u32>::empty());
    assert(out@ =~= base + spaced(ids@.take(0)));
    while i < ids.len()
        invariant
            i <= ids@.len(),
            out@ == base + spaced(ids@.take(i as int)),
        decreases ids.len() - i,
    {
        assert(ids@.take(i as int + 1).drop_last() =~= ids@.take(i as int));
        if i > 0 {
            out.append(", ");
        }
        push_decimal(out, ids[i] as u64);
        assert(out@ =~= base + spaced(ids@.take(i as int + 1)));
        i = i + 1;
    }
    assert(ids@.take(i as int) =~= ids@);
    out.push(']');
    assert(out@ =~= old(out)@ + ids_text(ids@));
}

impl IntentRecord {
    /// Something was done.
    pub open spec fn speaks(self) -> bool {
        self.actions is Some || self.mv is Some
    }

    /// `"#id actions mv:move  [reason]"`.
    pub open spec fn note(self) -> Seq<char> {
        "\"#"@ + decimal(self.id as nat) + " "@ + (match self.actions {
            Some(a) => json_escaped(a@),
            None => seq![],
        }) + (match self.mv {
            Some(m) => " mv:"@ + json_escaped(m@),
            None => seq![],
        }) + (match self.reason {
            Some(r) => "  ["@ + json_escaped(r@) + "]"@,
            None => seq![],
        }) + seq!['"']
    }

    fn noted(&self) -> (r: String)
        ensures
            r@ == self.note(),
    {
        let mut out: String = String::from_str("\"#");
        push_decimal(&mut out, self.id as u64);
        out.append(" ");
        if let Some(a) = &self.actions {
            push_json(&mut out, a.as_str());
        }
        if let Some(m) = &self.mv {
            out.append(" mv:");
            push_json(&mut out, m.as_str());
        }
        if let Some(r) = &self.reason {
            out.append("  [");
            push_json(&mut out, r.as_str());
            out.append("]");
        }
        out.push('"');
        assert(out@ =~= self.note());
        out
    }
}

pub open spec fn intent_notes(s: Seq<IntentRecord>) -> Seq<Seq<char>>
    decreases s.len(),
{
    if s.len() == 0 {
        seq![]
    } else if s.last().speaks() {
        intent_notes(s.drop_last()).push(s.last().note())
    } else {
        intent_notes(s.drop_last())
    }
}

pub open spec fn views_of(s: Seq<String>) -> Seq<Seq<char>> {
    Seq::new(s.len(), |i: int| s[i]@)
}

impl Frame {
    /// What happened: who did what, who died, what fell.
    pub open spec fn notes(self) -> Seq<Seq<char>> {
        let a = intent_notes(self.intents@);
        let b = if self.deaths@.len() == 0 {
            a
        } else {
            a.push("\"\\u2620 deaths: "@ + ids_text(self.deaths@) + seq!['"'])
        };
        if self.destroyed_structures@.len() == 0 {
            b
        } else {
            b.push("\"\\u2691 destroyed: "@ + ids_text(self.destroyed_structures@) + seq!['"'])
        }
    }

    fn list_notes(&self) -> (r: Vec<String>)
        ensures
            views_of(r@) == self.notes(),
    {
        let mut out: Vec<String> = Vec::new();
        let mut i: usize = 0;
        assert(self.intents@.take(0) =~= Seq::<IntentRecord>::empty());
        assert(views_of(out@) =~= intent_notes(self.intents@.take(0)));
        while i < self.intents.len()
            invariant
                i <= self.intents@.len(),
                views_of(out@) == intent_notes(self.intents@.take(i as int)),
            decreases self.intents.len() - i,
        {
            assert(self.intents@.take(i as int + 1).drop_last() =~= self.intents@.take(i as int));
            let n: &IntentRecord = &self.intents[i];
            let ghost before = out@;
            if n.actions.is_some() || n.mv.is_some() {
                let note: String = n.noted();
                out.push(note);
                assert(views_of(out@) =~= views_of(before).push(note@));
            }
            i = i + 1;
        }
        assert(self.intents@.take(i as int) =~= self.intents@);
        if self.deaths.len() > 0 {
            let ghost before = out@;
            let mut note: String = String::from_str("\"\\u2620 deaths: ");
            push_ids(&self.deaths, &mut note);
            note.push('"');
            assert(note@ =~= "\"\\u2620 deaths: "@ + ids_text(self.deaths@) + seq!['"']);
            out.push(note);
            assert(views_of(out@) =~= views_of(before).push(note@));
        }
        if self.destroyed_structures.len() > 0 {
            let ghost before = out@;
            let mut note: String = String::from_str("\"\\u2691 destroyed: ");
            push_ids(&self.destroyed_structures, &mut note);
            note.push('"');
            assert(note@ =~= "\"\\u2691 destroyed: "@ + ids_text(self.destroyed_structures@)
                + seq!['"']);
            out.push(note);
            assert(views_of(out@) =~= views_of(before).push(note@));
        }
        out
    }
}

/// One tick with everything in it.
impl Shown<Vec<RoomLayout>> for Frame {
    open spec fn shown(&self, c: Vec<RoomLayout>) -> Seq<char> {
        "{\"t\":"@ + decimal(self.tick as nat) + ",\"creeps\":"@ + listed(
            texts_of(self.creeps@, c),
        ) + ",\"structs\":"@ + listed(texts_of(self.structures@, c)) + ",\"towers\":"@ + listed(
            texts_of(self.towers@, c),
        ) + ",\"notes\":"@ + listed(self.notes()) + "}"@
    }

    open spec fn showable(&self, c: Vec<RoomLayout>) -> bool {
        self.wf()
    }

    fn show(&self, c: &Vec<RoomLayout>, out: &mut String) {
        let ghost before = out@;
        out.append("{\"t\":");
        push_decimal(out, self.tick as u64);
        out.append(",\"creeps\":");
        push_list(&self.creeps, c, out);
        out.append(",\"structs\":");
        push_list(&self.structures, c, out);
        out.append(",\"towers\":");
        push_list(&self.towers, c, out);
        out.append(",\"notes\":");
        let notes: Vec<String> = self.list_notes();
        assert(texts_of(notes@, ()) =~= views_of(notes@));
        push_list(&notes, &(), out);
        out.append("}");
        assert(out@ =~= before + self.shown(*c));
    }
}

/// Every so many frames one is kept, and the last.
pub open spec fn kept(i: int, n: int, stride: int) -> bool {
    i % stride == 0 || i == n - 1
}

/// The texts of the frames that are kept among the first `upto`.
pub open spec fn kept_frames(
    frames: Seq<Frame>,
    rooms: Vec<RoomLayout>,
    stride: int,
    upto: int,
) -> Seq<Seq<char>>
    decreases upto,
{
    if upto <= 0 {
        seq![]
    } else {
        let before = kept_frames(frames, rooms, stride, upto - 1);
        if kept(upto - 1, frames.len() as int, stride) {
            before.push(frames[upto - 1].shown(rooms))
        } else {
            before
        }
    }
}

/// The frames as JSON, one of every `stride` and the last.
pub open spec fn frames_json(
    frames: Seq<Frame>,
    rooms: Vec<RoomLayout>,
    stride: int,
) -> Seq<char> {
    listed(kept_frames(frames, rooms, stride, frames.len() as int))
}

/// The last frame is always kept, and with a stride of one all are.
pub proof fn downsampling_keeps_the_last_frame(
    frames: Seq<Frame>,
    rooms: Vec<RoomLayout>,
    stride: int,
)
    requires
        stride >= 1,
        frames.len() > 0,
    ensures
        kept_frames(frames, rooms, stride, frames.len() as int).len() > 0,
        kept_frames(frames, rooms, stride, frames.len() as int).last() == frames.last().shown(
            rooms,
        ),
        kept_frames(frames, rooms, 1, frames.len() as int) == texts_of(frames, rooms),
{
    lemma_all_kept(frames, rooms, frames.len() as int);
    assert(texts_of(frames, rooms).take(frames.len() as int) =~= texts_of(frames, rooms));
}

proof fn lemma_all_kept(frames: Seq<Frame>, rooms: Vec<RoomLayout>, n: int)
    requires
        0 <= n <= frames.len(),
    ensures
        kept_frames(frames, rooms, 1, n) == texts_of(frames, rooms).take(n),
    decreases n,
{
    if n > 0 {
        lemma_all_kept(frames, rooms, n - 1);
        assert((n - 1) % 1 == 0);
        assert(kept_frames(frames, rooms, 1, n) =~= texts_of(frames, rooms).take(n));
    } else {
        assert(kept_frames(frames, rooms, 1, n) =~= texts_of(frames, rooms).take(n));
    }
}

fn build_frames_json(rec: &CombatRecording, rooms: &Vec<RoomLayout>, stride: usize) -> (r: String)
    requires
        rec.wf(),
        stride >= 1,
    ensures
        r@ == frames_json(rec.frames@, *rooms, stride as int),
{
    let n: usize = rec.frames.len();
    let mut out: String = String::new();
    out.push('[');
    let ghost base = seq!['['];
    let mut first: bool = true;
    let mut i: usize = 0;
    assert(out@ =~= base + comma_joined(kept_frames(rec.frames@, *rooms, stride as int, 0)));
    while i < n
        invariant
            i <= n,
            n == rec.frames@.len(),
            rec.wf(),
            stride >= 1,
            base == seq!['['],
            first == (kept_frames(rec.frames@, *rooms, stride as int, i as int).len() == 0),
            out@ == base + comma_joined(
                kept_frames(rec.frames@, *rooms, stride as int, i as int),
            ),
        decreases n - i,
    {
        let ghost before = kept_frames(rec.frames@, *rooms, stride as int, i as int);
        if i % stride == 0 || i == n - 1 {
            proof {
                lemma_joined_push(before, rec.frames@[i as int].shown(*rooms));
            }
            if !first {
                out.push(',');
            }
            first = false;
            rec.frames[i].show(rooms, &mut out);
        }
        i = i + 1;
        assert(out@ =~= base + comma_joined(
            kept_frames(rec.frames@, *rooms, stride as int, i as int),
        ));
    }
    out.push(']');
    assert(out@ =~= frames_json(rec.frames@, *rooms, stride as int));
    out
}

impl Shapes {
    /// The drawings in the order of their places.
    pub open spec fn json(self) -> Seq<char> {
        listed(seq![self.spawn@, self.tower@, self.rampart@, self.wall@])
    }

    fn shapes_json(&self) -> (r: String)
        ensures
            r@ == self.json(),
    {
        proof {
            let none = Seq::<Seq<char>>::empty();
            let one = none.push(self.spawn@);
            let two = one.push(self.tower@);
            let three = two.push(self.rampart@);
            lemma_joined_push(none, self.spawn@);
            lemma_joined_push(one, self.tower@);
            lemma_joined_push(two, self.rampart@);
            lemma_joined_push(three, self.wall@);
            assert(three.push(self.wall@) =~= seq![
                self.spawn@,
                self.tower@,
                self.rampart@,
                self.wall@,
            ]);
        }
        let mut out: String = String::new();
        out.push('[');
        out.append(self.spawn.as_str());
        out.push(',');
        out.append(self.tower.as_str());
        out.push(',');
        out.append(self.rampart.as_str());
        out.push(',');
        out.append(self.wall.as_str());
        out.push(']');
        assert(out@ =~= self.json());
        out
    }
}

// The pages.

/// The data of a replay as an assignment.
pub open spec fn data_text(
    frames: Seq<Frame>,
    meta: ReplayMeta,
    shapes: Shapes,
    stride: int,
) -> Seq<char> {
    "window.REPLAY={\"meta\":"@ + meta.json() + ",\"frames\":"@ + frames_json(
        frames,
        meta.rooms,
        stride,
    ) + ",\"shapes\":"@ + shapes.json() + "};\n"@
}

/// The drawing code, the playback code and the data, inlined.
pub open spec fn script_text(data: Seq<char>) -> Seq<char> {
    "<script>\n"@ + RENDERER_JS@ + "\n"@ + PLAYER_JS@ + "\n"@ + data
        + "IbexReplay.start(window.REPLAY);\n</script>"@
}

fn build_data(rec: &CombatRecording, meta: &ReplayMeta, shapes: &Shapes, stride: usize) -> (r:
    String)
    requires
        rec.wf(),
        stride >= 1,
    ensures
        r@ == data_text(rec.frames@, *meta, *shapes, stride as int),
{
    let mut out: String = String::from_str("window.REPLAY={\"meta\":");
    out.append(meta.meta_json().as_str());
    out.append(",\"frames\":");
    out.append(build_frames_json(rec, &meta.rooms, stride).as_str());
    out.append(",\"shapes\":");
    out.append(shapes.shapes_json().as_str());
    out.append("};\n");
    out
}

fn push_script(data: &str, out: &mut String)
    ensures
        final(out)@ == old(out)@ + script_text(data@),
{
    let ghost before = out@;
    out.append("<script>\n");
    out.append(RENDERER_JS);
    out.append("\n");
    out.append(PLAYER_JS);
    out.append("\n");
    out.append(data);
    out.append("IbexReplay.start(window.REPLAY);\n</script>");
    assert(out@ =~= before + script_text(data@));
}

pub open spec fn page_text(frames: Seq<Frame>, meta: ReplayMeta, shapes: Shapes) -> Seq<char> {
    SHELL_HEAD@ + SHELL_BODY@ + script_text(data_text(frames, meta, shapes, 1))
        + "\n</body>\n</html>\n"@
}

/// A recording as a page of its own.
pub fn replay_to_html(rec: &CombatRecording, meta: &ReplayMeta, shapes: &Shapes) -> (r: String)
    requires
        rec.wf(),
    ensures
        r@ == page_text(rec.frames@, *meta, *shapes),
{
    let data: String = build_data(rec, meta, shapes, 1);
    let mut html: String = String::from_str(SHELL_HEAD);
    html.append(SHELL_BODY);
    push_script(data.as_str(), &mut html);
    html.append("\n</body>\n</html>\n");
    html
}

/// How many frames make one, for about `max_frames` of `n`.
pub open spec fn widget_stride(n: nat, max_frames: nat) -> nat {
    let m = if max_frames >= 1 {
        max_frames
    } else {
        1
    };
    if n / m >= 1 {
        n / m
    } else {
        1
    }
}

pub open spec fn widget_text(
    frames: Seq<Frame>,
    meta: ReplayMeta,
    shapes: Shapes,
    max_frames: nat,
) -> Seq<char> {
    SHELL_STYLE@ + "<div id=\"replay-root\">"@ + SHELL_BODY@ + "</div>"@ + script_text(
        data_text(frames, meta, shapes, widget_stride(frames.len(), max_frames) as int),
    )
}

/// A recording as a part of another page, with about `max_frames` frames.
pub fn replay_to_widget(
    rec: &CombatRecording,
    meta: &ReplayMeta,
    shapes: &Shapes,
    max_frames: usize,
) -> (r: String)
    requires
        rec.wf(),
    ensures
        r@ == widget_text(rec.frames@, *meta, *shapes, max_frames as nat),
{
    let m: usize = if max_frames >= 1 {
        max_frames
    } else {
        1
    };
    let n: usize = rec.frames.len();
    let stride: usize = if n / m >= 1 {
        n / m
    } else {
        1
    };
    let data: String = build_data(rec, meta, shapes, stride);
    let mut html: String = String::from_str(SHELL_STYLE);
    html.append("<div id=\"replay-root\">");
    html.append(SHELL_BODY);
    html.append("</div>");
    push_script(data.as_str(), &mut html);
    html
}

/// A file of a replay that is split up.
#[derive(Debug)]
pub struct ReplayFile {
    pub name: String,
    pub text: String,
}

pub open spec fn file_is(f: ReplayFile, name: Seq<char>, text: Seq<char>) -> bool {
    f.name@ == name && f.text@ == text
}

/// The page of a replay whose code and data lie in files of their own.
pub open spec fn split_page(name: Seq<char>) -> Seq<char> {
    SHELL_HEAD@ + SHELL_BODY@
        + "<script src=\"renderer.js\"></script>\n<script src=\"player.js\"></script>\n<script src=\""@
        + name
        + ".data.js\"></script>\n<script>IbexReplay.start(window.REPLAY);</script>\n</body>\n</html>\n"@
}

fn named(name: &str, suffix: &str) -> (r: String)
    ensures
        r@ == name@ + suffix@,
{
    let mut s: String = String::from_str(name);
    s.append(suffix);
    s
}

/// The files of a replay that is split up: the drawing code, the playback code, the
/// data and the page.
pub fn split_replay(name: &str, rec: &CombatRecording, meta: &ReplayMeta, shapes: &Shapes) -> (r:
    Vec<ReplayFile>)
    requires
        rec.wf(),
    ensures
        r@.len() == 4,
        file_is(r@[0], "renderer.js"@, RENDERER_JS@),
        file_is(r@[1], "player.js"@, PLAYER_JS@),
        file_is(r@[2], name@ + ".data.js"@, data_text(rec.frames@, *meta, *shapes, 1)),
        file_is(r@[3], name@ + ".html"@, split_page(name@)),
{
    let mut page: String = String::from_str(SHELL_HEAD);
    page.append(SHELL_BODY);
    page.append(
        "<script src=\"renderer.js\"></script>\n<script src=\"player.js\"></script>\n<script src=\"",
    );
    page.append(name);
    page.append(
        ".data.js\"></script>\n<script>IbexReplay.start(window.REPLAY);</script>\n</body>\n</html>\n",
    );
    let mut files: Vec<ReplayFile> = Vec::new();
    files.push(
        ReplayFile {
            name: String::from_str("renderer.js"),
            text: String::from_str(RENDERER_JS),
        },
    );
    files.push(
        ReplayFile { name: String::from_str("player.js"), text: String::from_str(PLAYER_JS) },
    );
    files.push(
        ReplayFile { name: named(name, ".data.js"), text: build_data(rec, meta, shapes, 1) },
    );
    files.push(ReplayFile { name: named(name, ".html"), text: page });
    files
}

// What holds of every replay.

/// Texts stand in the order of their first difference, and a beginning comes before the whole.
pub proof fn the_first_difference_decides(
    head: Seq<char>,
    a: char,
    b: char,
    x: Seq<char>,
    y: Seq<char>,
)
    ensures
        a < b ==> precedes(head + seq![a] + x, head + seq![b] + y),
        precedes(head, head + seq![a] + x),
        !precedes(head, head),
        !precedes(head + seq![a] + x, head),
    decreases head.len(),
{
    let (p, q) = (head + seq![a] + x, head + seq![b] + y);
    if head.len() == 0 {
        assert(p[0] == a && q[0] == b);
    } else {
        the_first_difference_decides(head.drop_first(), a, b, x, y);
        assert(p.drop_first() =~= head.drop_first() + seq![a] + x);
        assert(q.drop_first() =~= head.drop_first() + seq![b] + y);
        assert(p[0] == head[0] && q[0] == head[0]);
    }
}

/// Of several terrains for a room the first is shown.
pub proof fn the_first_terrain_is_shown(ts: Seq<RoomTerrain>, room: (int, int), i: int)
    requires
        0 <= i < ts.len(),
        ts[i].room.0 == room.0,
        ts[i].room.1 == room.1,
        forall|k: int|
            0 <= k < i ==> (#[trigger] ts[k]).room.0 != room.0 || ts[k].room.1 != room.1,
    ensures
        terrain_in(ts, room) == Some(ts[i]),
        terrain_in(ts.take(i), room) is None,
    decreases ts.len(),
{
    lemma_no_terrain(ts.take(i), room);
    if i == ts.len() - 1 {
        assert(ts.drop_last() =~= ts.take(i));
    } else {
        the_first_terrain_is_shown(ts.drop_last(), room, i);
    }
}

proof fn lemma_no_terrain(ts: Seq<RoomTerrain>, room: (int, int))
    requires
        forall|k: int|
            0 <= k < ts.len() ==> (#[trigger] ts[k]).room.0 != room.0 || ts[k].room.1 != room.1,
    ensures
        terrain_in(ts, room) is None,
    decreases ts.len(),
{
    if ts.len() > 0 {
        assert(ts.last() == ts[ts.len() - 1]);
        lemma_no_terrain(ts.drop_last(), room);
    }
}

/// A room without terrain is shown open, and one with terrain shows its walls and swamps.
pub proof fn a_backdrop_shows_the_ground(
    r: RoomLayout,
    room: (int, int),
    ts: Seq<RoomTerrain>,
    i: int,
)
    requires
        is_backdrop(r, room, ts),
        0 <= i < ts.len(),
        ts[i].room.0 == room.0,
        ts[i].room.1 == room.1,
        forall|k: int|
            0 <= k < i ==> (#[trigger] ts[k]).room.0 != room.0 || ts[k].room.1 != room.1,
    ensures
        r.name@ == room_name_of(room),
        r.walls@ == ts[i].walls@,
        r.swamps@ == ts[i].swamps@,
        is_backdrop(r, room, seq![]) ==> r.walls@.len() == 0 && r.swamps@.len() == 0,
{
    the_first_terrain_is_shown(ts, room, i);
}

/// Everything in a world is on one of its tiles: creeps, then structures, then towers.
pub proof fn a_world_has_the_tiles_of_its_things(w: CombatWorld, i: int)
    ensures
        world_tiles(w).len() == w.creeps@.len() + w.structures@.len() + w.towers@.len(),
        0 <= i < w.creeps@.len() ==> world_tiles(w)[i] == w.creeps@[i].pos,
        0 <= i < w.structures@.len() ==> world_tiles(w)[w.creeps@.len() + i]
            == w.structures@[i].pos,
        0 <= i < w.towers@.len() ==> world_tiles(w)[w.creeps@.len() + w.structures@.len() + i]
            == w.towers@[i].pos,
{
}

/// One more frame adds the tiles of its creeps.
pub proof fn one_more_frame_adds_its_creeps(frames: Seq<Frame>, f: Frame, i: int)
    requires
        0 <= i < f.creeps@.len(),
    ensures
        frame_tiles(seq![]).len() == 0,
        frame_tiles(frames.push(f)).len() == frame_tiles(frames).len() + f.creeps@.len(),
        frame_tiles(frames.push(f))[frame_tiles(frames).len() + i] == f.creeps@[i].pos,
        frame_tiles(frames.push(f)).take(frame_tiles(frames).len() as int) == frame_tiles(frames),
{
    assert(frames.push(f).drop_last() =~= frames);
    assert(frame_tiles(frames.push(f)).take(frame_tiles(frames).len() as int) =~= frame_tiles(
        frames,
    ));
}

/// A room is found at its first place, and a room that is not shown is at -1.
pub proof fn a_room_is_found_at_its_first_place(rooms: Seq<RoomLayout>, name: Seq<char>, i: int)
    requires
        0 <= i <= rooms.len(),
        forall|k: int| 0 <= k < i ==> (#[trigger] rooms[k]).name@ != name,
    ensures
        i < rooms.len() && rooms[i].name@ == name ==> room_index(rooms, name) == i,
        i == rooms.len() ==> room_index(rooms, name) == -1,
    decreases rooms.len(),
{
    if rooms.len() > 0 {
        if i < rooms.len() - 1 {
            a_room_is_found_at_its_first_place(rooms.drop_last(), name, i);
        } else {
            a_room_is_found_at_its_first_place(rooms.drop_last(), name, rooms.len() - 1);
            assert(rooms.last() == rooms[rooms.len() - 1]);
        }
    }
}

/// A tile is shown by its room and by where it lies in the room, from the north-west corner.
pub proof fn a_place_is_a_room_and_an_offset(
    rooms: Seq<RoomLayout>,
    p: WPos,
    room: (int, int),
    x: nat,
    y: nat,
)
    requires
        p.wx == 50 * room.0 + x,
        p.wy == 50 * room.1 + y,
        x < 50,
        y < 50,
    ensures
        place_text(rooms, p) == signed_decimal(room_index(rooms, room_name_of(room))) + seq![',']
            + decimal(x) + seq![','] + decimal(y),
{
    assert(p.room_of() == room);
    assert(p.wx as int % 50 == x && p.wy as int % 50 == y);
}

/// A creep is a list of its id, its place, its owner, its hits of how many, and its parts.
pub proof fn a_creep_is_listed(c: FrameCreep, rooms: Vec<RoomLayout>)
    ensures
        c.shown(rooms) == listed(
            seq![
                decimal(c.id as nat),
                place_text(rooms@, c.pos),
                decimal(c.owner as nat),
                decimal(c.hits as nat),
                decimal(c.hits_max as nat),
                listed(Seq::new(7, |i: int| decimal(c.composition[i] as nat))),
            ],
        ),
{
    let a = Seq::<Seq<char>>::empty().push(decimal(c.id as nat));
    let b = a.push(place_text(rooms@, c.pos));
    let d = b.push(decimal(c.owner as nat));
    let e = d.push(decimal(c.hits as nat));
    let f = e.push(decimal(c.hits_max as nat));
    let parts = listed(Seq::new(7, |i: int| decimal(c.composition[i] as nat)));
    assert(parts_of(c.composition) =~= Seq::new(7, |i: int| decimal(c.composition[i] as nat)));
    lemma_joined_push(Seq::empty(), decimal(c.id as nat));
    lemma_joined_push(a, place_text(rooms@, c.pos));
    lemma_joined_push(b, decimal(c.owner as nat));
    lemma_joined_push(d, decimal(c.hits as nat));
    lemma_joined_push(e, decimal(c.hits_max as nat));
    lemma_joined_push(f, parts);
    assert(f.push(parts) =~= seq![
        decimal(c.id as nat),
        place_text(rooms@, c.pos),
        decimal(c.owner as nat),
        decimal(c.hits as nat),
        decimal(c.hits_max as nat),
        parts,
    ]);
    assert(c.shown(rooms) =~= listed(f.push(parts)));
}

/// A structure is a list of its place, its drawing, its owner or -1, and its hits of how many.
pub proof fn a_structure_is_listed(s: FrameStructure, rooms: Vec<RoomLayout>)
    ensures
        s.owner is None ==> s.shown(rooms) == listed(
            seq![
                place_text(rooms@, s.pos),
                decimal(drawing(s.kind)),
                signed_decimal(-1),
                decimal(s.hits as nat),
                decimal(s.hits_max as nat),
            ],
        ),
        s.owner is Some ==> s.shown(rooms) == listed(
            seq![
                place_text(rooms@, s.pos),
                decimal(drawing(s.kind)),
                signed_decimal(s.owner->0 as int),
                decimal(s.hits as nat),
                decimal(s.hits_max as nat),
            ],
        ),
{
    let owner = signed_decimal(
        match s.owner {
            Some(o) => o as int,
            None => -1,
        },
    );
    let a = Seq::<Seq<char>>::empty().push(place_text(rooms@, s.pos));
    let b = a.push(decimal(drawing(s.kind)));
    let d = b.push(owner);
    let e = d.push(decimal(s.hits as nat));
    let f = e.push(decimal(s.hits_max as nat));
    lemma_joined_push(Seq::empty(), place_text(rooms@, s.pos));
    lemma_joined_push(a, decimal(drawing(s.kind)));
    lemma_joined_push(b, owner);
    lemma_joined_push(d, decimal(s.hits as nat));
    lemma_joined_push(e, decimal(s.hits_max as nat));
    assert(f =~= seq![
        place_text(rooms@, s.pos),
        decimal(drawing(s.kind)),
        owner,
        decimal(s.hits as nat),
        decimal(s.hits_max as nat),
    ]);
    assert(s.shown(rooms) =~= listed(f));
}

/// A tower is a list of its place, its owner, its energy and its hits.
pub proof fn a_tower_is_listed(t: FrameTower, rooms: Vec<RoomLayout>)
    ensures
        t.shown(rooms) == listed(
            seq![
                place_text(rooms@, t.pos),
                decimal(t.owner as nat),
                decimal(t.energy as nat),
                decimal(t.hits as nat),
            ],
        ),
{
    let a = Seq::<Seq<char>>::empty().push(place_text(rooms@, t.pos));
    let b = a.push(decimal(t.owner as nat));
    let d = b.push(decimal(t.energy as nat));
    let e = d.push(decimal(t.hits as nat));
    lemma_joined_push(Seq::empty(), place_text(rooms@, t.pos));
    lemma_joined_push(a, decimal(t.owner as nat));
    lemma_joined_push(b, decimal(t.energy as nat));
    lemma_joined_push(d, decimal(t.hits as nat));
    assert(e =~= seq![
        place_text(rooms@, t.pos),
        decimal(t.owner as nat),
        decimal(t.energy as nat),
        decimal(t.hits as nat),
    ]);
    assert(t.shown(rooms) =~= listed(e));
}

/// Every kind finds its drawing among the shapes; only a core is drawn as another kind, a
/// spawn.
pub proof fn kinds_find_their_drawings(shapes: Shapes, s: Seq<Seq<char>>)
    requires
        s.len() == 4,
        s[drawing(StructureKind::Spawn) as int] == shapes.spawn@,
        s[drawing(StructureKind::Tower) as int] == shapes.tower@,
        s[drawing(StructureKind::Rampart) as int] == shapes.rampart@,
        s[drawing(StructureKind::Wall) as int] == shapes.wall@,
    ensures
        shapes.json() == listed(s),
        drawing(StructureKind::Spawn) == 0,
        drawing(StructureKind::Tower) == 1,
        drawing(StructureKind::Rampart) == 2,
        drawing(StructureKind::Wall) == 3,
        drawing(StructureKind::InvaderCore) == drawing(StructureKind::Spawn),
{
    assert(s =~= seq![shapes.spawn@, shapes.tower@, shapes.rampart@, shapes.wall@]);
}

/// Ids are listed with a comma and a blank between them.
pub proof fn one_more_id_follows_a_comma(ids: Seq<u32>, id: u32)
    ensures
        ids_text(seq![]) == seq!['[', ']'],
        ids.len() == 0 ==> ids_text(ids.push(id)) == seq!['['] + decimal(id as nat) + seq![']'],
        ids.len() > 0 ==> ids_text(ids.push(id)) == ids_text(ids).drop_last() + ", "@ + decimal(
            id as nat,
        ) + seq![']'],
{
    let none = Seq::<u32>::empty();
    assert(spaced(none).len() == 0);
    assert(ids_text(none) =~= seq!['[', ']']);
    assert(ids.push(id).drop_last() =~= ids);
    assert(ids_text(ids).drop_last() =~= seq!['['] + spaced(ids));
    if ids.len() > 0 {
        assert(ids_text(ids.push(id)) =~= seq!['['] + spaced(ids) + ", "@ + decimal(id as nat)
            + seq![']']);
    }
}

/// A creep that acted or moved is noted, and one that did neither is not, whatever its reason.
pub proof fn who_acts_is_noted(s: Seq<IntentRecord>, r: IntentRecord)
    ensures
        intent_notes(seq![]).len() == 0,
        r.actions is Some ==> intent_notes(s.push(r)) == intent_notes(s).push(r.note()),
        r.mv is Some ==> intent_notes(s.push(r)) == intent_notes(s).push(r.note()),
        r.actions is None && r.mv is None ==> intent_notes(s.push(r)) == intent_notes(s),
{
    assert(s.push(r).drop_last() =~= s);
}

/// A note tells the creep and then its actions, its move and its reason, as far as there are
/// any.
pub proof fn a_note_tells_what_there_is(r: IntentRecord)
    ensures
        r.actions is None && r.mv is None && r.reason is None ==> r.note() == "\"#"@ + decimal(
            r.id as nat,
        ) + " "@ + seq!['"'],
        ({
            let less = IntentRecord { reason: None, ..r };
            r.reason is Some ==> r.note() == less.note().drop_last() + "  ["@ + json_escaped(
                (r.reason->0)@,
            ) + "]"@ + seq!['"']
        }),
        ({
            let less = IntentRecord { mv: None, ..r };
            r.mv is Some && r.reason is None ==> r.note() == less.note().drop_last() + " mv:"@
                + json_escaped((r.mv->0)@) + seq!['"']
        }),
        ({
            let less = IntentRecord { actions: None, ..r };
            r.actions is Some && r.mv is None && r.reason is None ==> r.note()
                == less.note().drop_last() + json_escaped((r.actions->0)@) + seq!['"']
        }),
{
    let a = IntentRecord { reason: None, ..r };
    let b = IntentRecord { mv: None, ..r };
    let c = IntentRecord { actions: None, ..r };
    let front = "\"#"@ + decimal(r.id as nat) + " "@;
    if r.actions is None && r.mv is None && r.reason is None {
        assert(r.note() =~= front + seq!['"']);
    }
    if r.reason is Some {
        assert(r.note() =~= a.note().drop_last() + "  ["@ + json_escaped((r.reason->0)@) + "]"@
            + seq!['"']);
    }
    if r.mv is Some && r.reason is None {
        assert(r.note() =~= b.note().drop_last() + " mv:"@ + json_escaped((r.mv->0)@) + seq!['"']);
    }
    if r.actions is Some && r.mv is None && r.reason is None {
        assert(r.note() =~= c.note().drop_last() + json_escaped((r.actions->0)@) + seq!['"']);
    }
}

/// Who died is noted after what was done, and what fell after that; neither where there was
/// none.
pub proof fn deaths_are_noted_before_ruins(f: Frame)
    ensures
        ({
            let (done, all) = (intent_notes(f.intents@), f.notes());
            let (dead, fell) = (f.deaths@.len() > 0, f.destroyed_structures@.len() > 0);
            &&& !dead && !fell ==> all == done
            &&& dead && !fell ==> all.drop_last() == done && all.last() == "\"\\u2620 deaths: "@
                + ids_text(f.deaths@) + seq!['"']
            &&& !dead && fell ==> all.drop_last() == done && all.last()
                == "\"\\u2691 destroyed: "@ + ids_text(f.destroyed_structures@) + seq!['"']
            &&& dead && fell ==> {
                &&& all.len() == done.len() + 2
                &&& all.drop_last().drop_last() == done
                &&& all[done.len() as int] == "\"\\u2620 deaths: "@ + ids_text(f.deaths@)
                    + seq!['"']
                &&& all.last() == "\"\\u2691 destroyed: "@ + ids_text(f.destroyed_structures@)
                    + seq!['"']
            }
        }),
{
    let (done, all) = (intent_notes(f.intents@), f.notes());
    if f.deaths@.len() > 0 && f.destroyed_structures@.len() > 0 {
        assert(all.drop_last().drop_last() =~= done);
    } else if f.deaths@.len() > 0 || f.destroyed_structures@.len() > 0 {
        assert(all.drop_last() =~= done);
    }
}

/// Of the frames those at the multiples of the stride are kept, and the last.
pub proof fn frames_are_kept_at_the_stride(n: int, stride: int, q: int, r: int)
    requires
        stride >= 1,
        0 <= q,
        0 <= r < stride,
        stride * q + r < n,
    ensures
        r == 0 ==> kept(stride * q + r, n, stride),
        stride * q + r == n - 1 ==> kept(stride * q + r, n, stride),
        r > 0 && stride * q + r < n - 1 ==> !kept(stride * q + r, n, stride),
{
    assert(stride * q == q * stride) by (nonlinear_arith);
    vstd::arithmetic::div_mod::lemma_fundamental_div_mod_converse(
        stride * q + r,
        stride,
        q,
        r,
    );
}

/// A frame that is kept follows those before it, and one that is not leaves them alone.
pub proof fn kept_frames_stand_in_order(
    frames: Seq<Frame>,
    rooms: Vec<RoomLayout>,
    stride: int,
    i: int,
)
    requires
        0 <= i < frames.len(),
        stride >= 1,
    ensures
        kept_frames(frames, rooms, stride, 0).len() == 0,
        i % stride == 0 || i == frames.len() - 1 ==> kept_frames(frames, rooms, stride, i + 1)
            == kept_frames(frames, rooms, stride, i).push(frames[i].shown(rooms)),
        i % stride != 0 && i < frames.len() - 1 ==> kept_frames(frames, rooms, stride, i + 1)
            == kept_frames(frames, rooms, stride, i),
{
}

/// A part of a page keeps about as many frames as it may: a stride leads through all the frames
/// in at least that many steps, and one more would not.
pub proof fn a_stride_spreads_the_frames(n: nat, max_frames: nat)
    ensures
        widget_stride(n, max_frames) >= 1,
        widget_stride(n, 0) == widget_stride(n, 1),
        max_frames > n ==> widget_stride(n, max_frames) == 1,
        1 <= max_frames <= n ==> widget_stride(n, max_frames) * max_frames <= n < (widget_stride(
            n,
            max_frames,
        ) + 1) * max_frames,
{
    if max_frames > n {
        vstd::arithmetic::div_mod::lemma_basic_div(n as int, max_frames as int);
    } else if max_frames >= 1 {
        let d = n / max_frames;
        vstd::arithmetic::div_mod::lemma_fundamental_div_mod(n as int, max_frames as int);
        assert(d >= 1) by (nonlinear_arith)
            requires
                n == max_frames * d + n % max_frames,
                n % max_frames < max_frames,
                1 <= max_frames <= n,
                d >= 0,
        ;
        assert(d * max_frames <= n < (d + 1) * max_frames) by (nonlinear_arith)
            requires
                n == max_frames * d + n % max_frames,
                0 <= n % max_frames < max_frames,
        ;
    }
}

} // verus!
