//! The combat world as the harness reads it: creeps, structures, towers and
//! controllers at world positions.

use crate::lists::copied;
use crate::position::WPos;
use vstd::prelude::*;

verus! {

/// A side of an engagement.
pub type PlayerId = u32;

/// What a structure is.
#[derive(Clone, Copy, Debug, PartialEq, Eq, Structural)]
pub enum StructureKind {
    Spawn,
    Tower,
    Rampart,
    Wall,
    InvaderCore,
}

/// A creep: its powers per tick, and the hits it has left.
#[derive(Clone, Copy, Debug, PartialEq, Eq, Structural)]
pub struct SimCreep {
    pub id: u32,
    pub owner: PlayerId,
    pub pos: WPos,
    pub hits: u32,
    pub hits_max: u32,
    pub attack_power: u32,
    pub ranged_attack_power: u32,
    pub heal_power: u32,
    pub dismantle_power: u32,
}

/// A structure other than a tower.
#[derive(Clone, Copy, Debug, PartialEq, Eq, Structural)]
pub struct SimStructure {
    pub id: u32,
    pub kind: StructureKind,
    pub owner: Option<PlayerId>,
    pub pos: WPos,
    pub hits: u32,
    pub hits_max: u32,
}

/// A tower.
#[derive(Clone, Copy, Debug, PartialEq, Eq, Structural)]
pub struct SimTower {
    pub id: u32,
    pub owner: PlayerId,
    pub pos: WPos,
    pub energy: u32,
    pub hits: u32,
}

/// A room controller.
#[derive(Clone, Copy, Debug, PartialEq, Eq, Structural)]
pub struct SimController {
    pub pos: WPos,
    pub owner: Option<PlayerId>,
}

/// The state of an engagement.
#[derive(Debug)]
pub struct CombatWorld {
    pub creeps: Vec<SimCreep>,
    pub structures: Vec<SimStructure>,
    pub towers: Vec<SimTower>,
    pub controllers: Vec<SimController>,
    pub safe_mode_owner: Option<PlayerId>,
}

impl Clone for CombatWorld {
    fn clone(&self) -> (r: Self)
        ensures
            r.creeps@ == self.creeps@,
            r.structures@ == self.structures@,
            r.towers@ == self.towers@,
            r.controllers@ == self.controllers@,
            r.safe_mode_owner == self.safe_mode_owner,
    {
        CombatWorld {
            creeps: copied(&self.creeps),
            structures: copied(&self.structures),
            towers: copied(&self.towers),
            controllers: copied(&self.controllers),
            safe_mode_owner: self.safe_mode_owner,
        }
    }
}

impl SimCreep {
    pub open spec fn alive(self) -> bool {
        self.hits > 0
    }

    /// A living creep of this side.
    pub open spec fn fights_for(self, owner: PlayerId) -> bool {
        self.owner == owner && self.alive()
    }

    pub fn is_alive(&self) -> (r: bool)
        ensures
            r == self.alive(),
    {
        self.hits > 0
    }

    pub fn is_fighting_for(&self, owner: PlayerId) -> (r: bool)
        ensures
            r == self.fights_for(owner),
    {
        self.owner == owner && self.hits > 0
    }
}

impl SimStructure {
    pub open spec fn alive(self) -> bool {
        self.hits > 0
    }

    pub fn is_alive(&self) -> (r: bool)
        ensures
            r == self.alive(),
    {
        self.hits > 0
    }
}

impl SimTower {
    pub open spec fn alive(self) -> bool {
        self.hits > 0
    }

    pub fn is_alive(&self) -> (r: bool)
        ensures
            r == self.alive(),
    {
        self.hits > 0
    }
}

impl CombatWorld {
    /// Everything stands on a tile that the game world has.
    pub open spec fn wf(self) -> bool {
        &&& forall|i: int|
            0 <= i < self.creeps@.len() ==> (#[trigger] self.creeps@[i]).pos.in_world()
        &&& forall|i: int|
            0 <= i < self.structures@.len() ==> (#[trigger] self.structures@[i]).pos.in_world()
        &&& forall|i: int|
            0 <= i < self.towers@.len() ==> (#[trigger] self.towers@[i]).pos.in_world()
    }

    /// The side has a living creep.
    pub open spec fn stands(self, owner: PlayerId) -> bool {
        exists|i: int|
            0 <= i < self.creeps@.len() && (#[trigger] self.creeps@[i]).fights_for(owner)
    }

    /// A structure or tower with this id is still up.
    pub open spec fn target_up(self, id: u32) -> bool {
        ||| exists|i: int|
            0 <= i < self.structures@.len() && (#[trigger] self.structures@[i]).id == id
                && self.structures@[i].alive()
        ||| exists|i: int|
            0 <= i < self.towers@.len() && (#[trigger] self.towers@[i]).id == id
                && self.towers@[i].alive()
    }

    /// The controller at this tile still has an owner.
    pub open spec fn controlled(self, pos: WPos) -> bool {
        exists|i: int|
            0 <= i < self.controllers@.len() && (#[trigger] self.controllers@[i]).pos == pos
                && self.controllers@[i].owner is Some
    }

    /// Whether the side has a living creep.
    pub fn side_stands(&self, owner: PlayerId) -> (r: bool)
        ensures
            r == self.stands(owner),
    {
        let mut i: usize = 0;
        while i < self.creeps.len()
            invariant
                i <= self.creeps@.len(),
                forall|k: int| 0 <= k < i ==> !(#[trigger] self.creeps@[k]).fights_for(owner),
            decreases self.creeps.len() - i,
        {
            if self.creeps[i].is_fighting_for(owner) {
                return true;
            }
            i = i + 1;
        }
        false
    }

    /// Whether a structure or tower with this id is still up.
    pub fn is_target_up(&self, id: u32) -> (r: bool)
        ensures
            r == self.target_up(id),
    {
        let mut i: usize = 0;
        while i < self.structures.len()
            invariant
                i <= self.structures@.len(),
                forall|k: int|
                    0 <= k < i ==> !((#[trigger] self.structures@[k]).id == id
                        && self.structures@[k].alive()),
            decreases self.structures.len() - i,
        {
            if self.structures[i].id == id && self.structures[i].is_alive() {
                return true;
            }
            i = i + 1;
        }
        let mut j: usize = 0;
        while j < self.towers.len()
            invariant
                j <= self.towers@.len(),
                forall|k: int|
                    0 <= k < j ==> !((#[trigger] self.towers@[k]).id == id
                        && self.towers@[k].alive()),
            decreases self.towers.len() - j,
        {
            if self.towers[j].id == id && self.towers[j].is_alive() {
                return true;
            }
            j = j + 1;
        }
        false
    }

    /// Whether the controller at this tile still has an owner.
    pub fn is_controlled(&self, pos: WPos) -> (r: bool)
        ensures
            r == self.controlled(pos),
    {
        let mut i: usize = 0;
        while i < self.controllers.len()
            invariant
                i <= self.controllers@.len(),
                forall|k: int|
                    0 <= k < i ==> !((#[trigger] self.controllers@[k]).pos == pos
                        && self.controllers@[k].owner is Some),
            decreases self.controllers.len() - i,
        {
            if self.controllers[i].pos == pos && self.controllers[i].owner.is_some() {
                return true;
            }
            i = i + 1;
        }
        false
    }
}

/// The tile at an offset within a room.
pub open spec fn tile_in(room: (i32, i32), x: int, y: int) -> WPos {
    WPos { wx: (room.0 * 50 + x) as i32, wy: (room.1 * 50 + y) as i32 }
}

/// The room is one that the game world has.
pub open spec fn room_in_world(room: (i32, i32)) -> bool {
    -128 <= room.0 < 128 && -128 <= room.1 < 128
}

/// The tile at an offset within a room.
pub fn pos_in(room: (i32, i32), x: u8, y: u8) -> (r: WPos)
    requires
        room_in_world(room),
        x < 50,
        y < 50,
    ensures
        r == tile_in(room, x as int, y as int),
        r.in_world(),
        r.room_of() == (room.0 as int, room.1 as int),
{
    WPos { wx: room.0 * 50 + x as i32, wy: room.1 * 50 + y as i32 }
}

/// A creep fights from its first hit on, for its own side alone.
pub proof fn a_creep_fights_while_it_has_hits(c: SimCreep, owner: PlayerId)
    ensures
        c.hits >= 1 ==> c.alive(),
        c.hits == 0 ==> !c.alive() && !c.fights_for(owner),
        c.owner != owner ==> !c.fights_for(owner),
        c.hits >= 1 && c.owner == owner ==> c.fights_for(owner),
{
}

/// One creep with a hit left keeps its side standing; without one the side is wiped.
pub proof fn a_side_stands_by_one_creep(w: CombatWorld, owner: PlayerId, i: int)
    requires
        0 <= i < w.creeps@.len(),
    ensures
        w.creeps@[i].owner == owner && w.creeps@[i].hits >= 1 ==> w.stands(owner),
        (forall|k: int|
            0 <= k < w.creeps@.len() ==> (#[trigger] w.creeps@[k]).owner != owner
                || w.creeps@[k].hits == 0) ==> !w.stands(owner),
{
    assert(w.creeps@[i].owner == owner && w.creeps@[i].hits >= 1 ==> w.creeps@[i].fights_for(
        owner,
    ));
}

/// A target is up while a structure or a tower of its id has hits, and down when every one of
/// them is at zero.
pub proof fn a_target_is_up_while_it_has_hits(w: CombatWorld, id: u32, i: int)
    ensures
        0 <= i < w.structures@.len() && w.structures@[i].id == id && w.structures@[i].hits >= 1
            ==> w.target_up(id),
        0 <= i < w.towers@.len() && w.towers@[i].id == id && w.towers@[i].hits >= 1
            ==> w.target_up(id),
        (forall|k: int|
            0 <= k < w.structures@.len() && (#[trigger] w.structures@[k]).id == id
                ==> w.structures@[k].hits == 0) && (forall|k: int|
            0 <= k < w.towers@.len() && (#[trigger] w.towers@[k]).id == id ==> w.towers@[k].hits
                == 0) ==> !w.target_up(id),
{
}

/// A controller is held while it has an owner, whoever that is.
pub proof fn a_controller_is_held_by_its_owner(w: CombatWorld, pos: WPos, i: int)
    requires
        0 <= i < w.controllers@.len(),
        w.controllers@[i].pos == pos,
        forall|k: int|
            0 <= k < w.controllers@.len() && (#[trigger] w.controllers@[k]).pos == pos ==> k == i,
    ensures
        w.controlled(pos) <==> w.controllers@[i].owner is Some,
{
}

/// Tiles of one room lie as far apart as their offsets, and the same offsets in two rooms as
/// far as fifty tiles a room.
pub proof fn tiles_lie_by_their_offsets(
    a: (i32, i32),
    b: (i32, i32),
    x: int,
    y: int,
    u: int,
    v: int,
)
    requires
        room_in_world(a),
        room_in_world(b),
        0 <= x < 50,
        0 <= y < 50,
        0 <= u < 50,
        0 <= v < 50,
    ensures
        tile_in(a, x, y).wx - tile_in(a, u, v).wx == x - u,
        tile_in(a, x, y).wy - tile_in(a, u, v).wy == y - v,
        tile_in(a, x, y).wx - tile_in(b, x, y).wx == 50 * (a.0 - b.0),
        tile_in(a, x, y).wy - tile_in(b, x, y).wy == 50 * (a.1 - b.1),
        tile_in((0, 0), 0, 0) == (WPos { wx: 0, wy: 0 }),
        tile_in(a, x, y).room_of() == (a.0 as int, a.1 as int),
{
}

} // verus!
