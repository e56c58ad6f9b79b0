//! What an engagement is about: a world, the objectives in it, and the two sides'
//! budgets.

use crate::lists::copied;
use crate::position::WPos;
use crate::world::{CombatWorld, PlayerId};
use vstd::prelude::*;

verus! {

/// What achieving an objective means.
#[derive(Clone, Copy, Debug, PartialEq, Eq, Hash, Structural)]
pub enum ObjectiveKind {
    /// Hold a tile to the end of the budget.
    Farm,
    /// Clear the room's defenders.
    Secure,
    /// Break the rampart that shields the core.
    Breach,
    /// Destroy the core.
    Raze,
    /// Neutralize the controller.
    Declaim,
}

impl Default for ObjectiveKind {
    fn default() -> (r: ObjectiveKind)
        ensures
            r == ObjectiveKind::Raze,
    {
        ObjectiveKind::Raze
    }
}

/// A target, with the tiles that it is engaged from.
#[derive(Debug)]
pub struct Objective {
    pub id: u32,
    pub room: (i32, i32),
    pub pos: WPos,
    /// The tile that the defense focuses.
    pub assault_pos: WPos,
    /// Where dismantlers stand; the first is the focus.
    pub front_tiles: Vec<WPos>,
    /// Where healers stand, next to the focus.
    pub support_tiles: Vec<WPos>,
    /// Where a moving assault starts.
    pub entry: WPos,
    pub kind: ObjectiveKind,
}

/// A generated engagement.
#[derive(Debug)]
pub struct Scenario {
    pub world: CombatWorld,
    pub objectives: Vec<Objective>,
    pub attacker_owner: PlayerId,
    pub defender_owner: PlayerId,
    /// Spawn energy per attacking member.
    pub member_energy: u32,
    /// Ticks the attacker has on site.
    pub onsite_budget: u32,
    pub label: String,
    pub seed: u64,
}

impl Clone for Objective {
    fn clone(&self) -> (r: Self)
        ensures
            self.alike(r),
    {
        Objective {
            id: self.id,
            room: self.room,
            pos: self.pos,
            assault_pos: self.assault_pos,
            front_tiles: copied(&self.front_tiles),
            support_tiles: copied(&self.support_tiles),
            entry: self.entry,
            kind: self.kind,
        }
    }
}

impl Clone for Scenario {
    fn clone(&self) -> (r: Self)
        ensures
            r.world.creeps@ == self.world.creeps@,
            r.world.structures@ == self.world.structures@,
            r.world.towers@ == self.world.towers@,
            r.world.controllers@ == self.world.controllers@,
            r.world.safe_mode_owner == self.world.safe_mode_owner,
            r.objectives@.len() == self.objectives@.len(),
            forall|i: int|
                0 <= i < self.objectives@.len() ==> (#[trigger] self.objectives@[i]).alike(
                    r.objectives@[i],
                ),
            r.attacker_owner == self.attacker_owner,
            r.defender_owner == self.defender_owner,
            r.member_energy == self.member_energy,
            r.onsite_budget == self.onsite_budget,
            r.label@ == self.label@,
            r.seed == self.seed,
    {
        let mut objectives: Vec<Objective> = Vec::new();
        let mut i: usize = 0;
        while i < self.objectives.len()
            invariant
                i <= self.objectives.len(),
                objectives@.len() == i,
                forall|k: int|
                    0 <= k < i ==> (#[trigger] self.objectives@[k]).alike(objectives@[k]),
            decreases self.objectives.len() - i,
        {
            objectives.push(self.objectives[i].clone());
            i = i + 1;
        }
        Scenario {
            world: self.world.clone(),
            objectives,
            attacker_owner: self.attacker_owner,
            defender_owner: self.defender_owner,
            member_energy: self.member_energy,
            onsite_budget: self.onsite_budget,
            label: self.label.clone(),
            seed: self.seed,
        }
    }
}

impl Objective {
    /// The same target, engaged from the same tiles.
    pub open spec fn alike(self, o: Objective) -> bool {
        &&& o.front_tiles@ == self.front_tiles@
        &&& o.support_tiles@ == self.support_tiles@
        &&& (Objective { front_tiles: self.front_tiles, support_tiles: self.support_tiles, ..o })
            == self
    }

    /// All its tiles are tiles of the game world.
    pub open spec fn wf(self) -> bool {
        &&& self.pos.in_world()
        &&& self.assault_pos.in_world()
        &&& self.entry.in_world()
    }
}

impl Scenario {
    /// It has an objective, and everything stands on tiles of the game world.
    pub open spec fn wf(self) -> bool {
        &&& self.world.wf()
        &&& self.objectives@.len() > 0
        &&& forall|i: int| 0 <= i < self.objectives@.len() ==> (#[trigger] self.objectives@[i]).wf()
    }
}

} // verus!
