//! The scripted siege: dismantlers break the nearest rampart and then the core,
//! healers tend the weakest member.

use crate::colony::lemma_filter_take;
use crate::position::{tile_range, WPos};
use crate::profile::{fighters, fighting};
use crate::world::{CombatWorld, PlayerId, SimCreep, SimStructure, StructureKind};
use vstd::prelude::*;

verus! {

/// What a creep is ordered to do this tick.
#[derive(Clone, Copy, Debug, PartialEq, Eq, Structural)]
pub enum CombatAction {
    Dismantle(u32),
    Heal(u32),
    RangedHeal(u32),
}

/// An order to a creep.
#[derive(Clone, Copy, Debug, PartialEq, Eq, Structural)]
pub struct Order {
    pub creep: u32,
    pub action: CombatAction,
}

/// The first of the creeps with the fewest hits.
pub open spec fn weakest(s: Seq<SimCreep>) -> Option<SimCreep>
    decreases s.len(),
{
    if s.len() == 0 {
        None
    } else {
        match weakest(s.drop_last()) {
            Some(w) if w.hits <= s.last().hits => Some(w),
            _ => Some(s.last()),
        }
    }
}

pub open spec fn standing_rampart() -> spec_fn(SimStructure) -> bool {
    |s: SimStructure| s.alive() && s.kind == StructureKind::Rampart
}

/// The first of the structures nearest to a tile.
pub open spec fn nearest(s: Seq<SimStructure>, from: WPos) -> Option<SimStructure>
    decreases s.len(),
{
    if s.len() == 0 {
        None
    } else {
        match nearest(s.drop_last(), from) {
            Some(n) if from.tiles_to(n.pos) <= from.tiles_to(s.last().pos) => Some(n),
            _ => Some(s.last()),
        }
    }
}

/// What a dismantler breaks: the nearest rampart, or the core if none stands.
pub open spec fn breach_target(
    ramparts: Seq<SimStructure>,
    from: WPos,
    core_id: u32,
    core_pos: WPos,
) -> (WPos, u32) {
    match nearest(ramparts, from) {
        Some(r) => (r.pos, r.id),
        None => (core_pos, core_id),
    }
}

/// The order to one creep.
pub open spec fn order_for(
    c: SimCreep,
    ramparts: Seq<SimStructure>,
    wounded: Option<SimCreep>,
    core_id: u32,
    core_pos: WPos,
) -> Option<CombatAction> {
    if c.dismantle_power > 0 {
        let target = breach_target(ramparts, c.pos, core_id, core_pos);
        if c.pos.tiles_to(target.0) <= 1 {
            Some(CombatAction::Dismantle(target.1))
        } else {
            None
        }
    } else if c.heal_power > 0 && wounded is Some {
        let w = wounded->0;
        if c.pos.tiles_to(w.pos) <= 1 {
            Some(CombatAction::Heal(w.id))
        } else if c.pos.tiles_to(w.pos) <= 3 {
            Some(CombatAction::RangedHeal(w.id))
        } else {
            None
        }
    } else {
        None
    }
}

/// The orders to the first `n` creeps, in order.
pub open spec fn orders_to(
    squad: Seq<SimCreep>,
    ramparts: Seq<SimStructure>,
    core_id: u32,
    core_pos: WPos,
    n: int,
) -> Seq<Order>
    decreases n,
{
    if n <= 0 {
        seq![]
    } else {
        let before = orders_to(squad, ramparts, core_id, core_pos, n - 1);
        match order_for(squad[n - 1], ramparts, weakest(squad), core_id, core_pos) {
            Some(action) => before.push(Order { creep: squad[n - 1].id, action }),
            None => before,
        }
    }
}

/// The orders of one tick.
pub open spec fn siege_orders(
    world: CombatWorld,
    attacker: PlayerId,
    core_id: u32,
    core_pos: WPos,
) -> Seq<Order> {
    let squad = world.creeps@.filter(fighting(attacker));
    let ramparts = world.structures@.filter(standing_rampart());
    orders_to(squad, ramparts, core_id, core_pos, squad.len() as int)
}

/// The weakest creep has no more hits than any other.
pub proof fn weakest_is_least(s: Seq<SimCreep>, i: int)
    requires
        0 <= i < s.len(),
    ensures
        weakest(s) matches Some(w) && w.hits <= s[i].hits && s.contains(w),
    decreases s.len(),
{
    let d = s.drop_last();
    if d.len() > 0 {
        weakest_is_least(d, if i < d.len() {
            i
        } else {
            0
        });
        let w = weakest(d)->0;
        let j = choose|j: int| 0 <= j < d.len() && d[j] == w;
        assert(s[j] == w);
    }
    assert(s[s.len() - 1] == s.last());
}

/// While a rampart stands the core is not touched: a dismantler's target is then a
/// rampart, and none stands nearer.
pub proof fn ramparts_fall_before_the_core(
    ramparts: Seq<SimStructure>,
    from: WPos,
    core_id: u32,
    core_pos: WPos,
    i: int,
)
    requires
        0 <= i < ramparts.len(),
    ensures
        exists|k: int|
            0 <= k < ramparts.len() && (#[trigger] ramparts[k]).id == breach_target(
                ramparts,
                from,
                core_id,
                core_pos,
            ).1 && ramparts[k].pos == breach_target(ramparts, from, core_id, core_pos).0,
        from.tiles_to(breach_target(ramparts, from, core_id, core_pos).0) <= from.tiles_to(
            ramparts[i].pos,
        ),
    decreases ramparts.len(),
{
    let d = ramparts.drop_last();
    assert(nearest(d, from) is Some <==> d.len() > 0);
    if d.len() > 0 {
        ramparts_fall_before_the_core(d, from, core_id, core_pos, if i < d.len() {
            i
        } else {
            0
        });
        let t = breach_target(d, from, core_id, core_pos);
        let k = choose|k: int|
            0 <= k < d.len() && (#[trigger] d[k]).id == t.1 && d[k].pos == t.0;
        assert(ramparts[k] == d[k]);
    }
    assert(ramparts[ramparts.len() - 1] == ramparts.last());
}

fn find_weakest(s: &Vec<SimCreep>) -> (r: Option<SimCreep>)
    ensures
        r == weakest(s@),
{
    let mut best: Option<SimCreep> = None;
    let mut i: usize = 0;
    assert(s@.take(0) =~= Seq::<SimCreep>::empty());
    while i < s.len()
        invariant
            i <= s@.len(),
            best == weakest(s@.take(i as int)),
        decreases s.len() - i,
    {
        assert(s@.take(i as int + 1).drop_last() =~= s@.take(i as int));
        let c: SimCreep = s[i];
        let keep: bool = match best {
            Some(w) => w.hits <= c.hits,
            None => false,
        };
        if !keep {
            best = Some(c);
        }
        i = i + 1;
    }
    assert(s@.take(i as int) =~= s@);
    best
}

fn standing_ramparts(world: &CombatWorld) -> (r: Vec<SimStructure>)
    requires
        world.wf(),
    ensures
        r@ == world.structures@.filter(standing_rampart()),
        forall|i: int| 0 <= i < r@.len() ==> (#[trigger] r@[i]).pos.in_world(),
{
    let mut out: Vec<SimStructure> = Vec::new();
    let mut i: usize = 0;
    proof {
        reveal(Seq::filter);
        assert(world.structures@.take(0) =~= Seq::<SimStructure>::empty());
    }
    while i < world.structures.len()
        invariant
            world.wf(),
            i <= world.structures@.len(),
            out@ == world.structures@.take(i as int).filter(standing_rampart()),
            forall|k: int| 0 <= k < out@.len() ==> (#[trigger] out@[k]).pos.in_world(),
        decreases world.structures.len() - i,
    {
        proof {
            lemma_filter_take(world.structures@, standing_rampart(), i as int);
        }
        let s: SimStructure = world.structures[i];
        if s.is_alive() && s.kind == StructureKind::Rampart {
            out.push(s);
        }
        i = i + 1;
    }
    assert(world.structures@.take(i as int) =~= world.structures@);
    out
}

fn find_nearest(s: &Vec<SimStructure>, from: WPos) -> (r: Option<SimStructure>)
    requires
        from.in_world(),
        forall|i: int| 0 <= i < s@.len() ==> (#[trigger] s@[i]).pos.in_world(),
    ensures
        r == nearest(s@, from),
        r matches Some(n) ==> n.pos.in_world(),
{
    let mut best: Option<SimStructure> = None;
    let mut i: usize = 0;
    assert(s@.take(0) =~= Seq::<SimStructure>::empty());
    while i < s.len()
        invariant
            i <= s@.len(),
            from.in_world(),
            forall|k: int| 0 <= k < s@.len() ==> (#[trigger] s@[k]).pos.in_world(),
            best == nearest(s@.take(i as int), from),
            best matches Some(n) ==> n.pos.in_world(),
        decreases s.len() - i,
    {
        assert(s@.take(i as int + 1).drop_last() =~= s@.take(i as int));
        let c: SimStructure = s[i];
        let keep: bool = match best {
            Some(n) => tile_range(from, n.pos) <= tile_range(from, c.pos),
            None => false,
        };
        if !keep {
            best = Some(c);
        }
        i = i + 1;
    }
    assert(s@.take(i as int) =~= s@);
    best
}

fn give_order(
    c: &SimCreep,
    ramparts: &Vec<SimStructure>,
    wounded: Option<SimCreep>,
    core_id: u32,
    core_pos: WPos,
) -> (r: Option<CombatAction>)
    requires
        c.pos.in_world(),
        core_pos.in_world(),
        wounded matches Some(w) ==> w.pos.in_world(),
        forall|i: int| 0 <= i < ramparts@.len() ==> (#[trigger] ramparts@[i]).pos.in_world(),
    ensures
        r == order_for(*c, ramparts@, wounded, core_id, core_pos),
{
    if c.dismantle_power > 0 {
        let (tpos, tid) = match find_nearest(ramparts, c.pos) {
            Some(s) => (s.pos, s.id),
            None => (core_pos, core_id),
        };
        if tile_range(c.pos, tpos) <= 1 {
            return Some(CombatAction::Dismantle(tid));
        }
        return None;
    }
    if c.heal_power > 0 {
        if let Some(w) = wounded {
            let range: u32 = tile_range(c.pos, w.pos);
            if range <= 1 {
                return Some(CombatAction::Heal(w.id));
            }
            if range <= 3 {
                return Some(CombatAction::RangedHeal(w.id));
            }
        }
    }
    None
}

/// The orders of one tick of the siege.
pub fn siege_intents(world: &CombatWorld, attacker: PlayerId, core_id: u32, core_pos: WPos) -> (r:
    Vec<Order>)
    requires
        world.wf(),
        core_pos.in_world(),
    ensures
        r@ == siege_orders(*world, attacker, core_id, core_pos),
{
    let squad: Vec<SimCreep> = fighters(world, attacker);
    assert forall|i: int| 0 <= i < squad@.len() implies (#[trigger] squad@[i]).pos.in_world() by {
        world.creeps@.lemma_filter_contains_rev(fighting(attacker), squad@[i]);
    }
    let ramparts: Vec<SimStructure> = standing_ramparts(world);
    let wounded: Option<SimCreep> = find_weakest(&squad);
    proof {
        if squad@.len() > 0 {
            weakest_is_least(squad@, 0);
        }
    }
    let mut out: Vec<Order> = Vec::new();
    let mut i: usize = 0;
    while i < squad.len()
        invariant
            i <= squad@.len(),
            core_pos.in_world(),
            wounded == weakest(squad@),
            wounded matches Some(w) ==> w.pos.in_world(),
            forall|k: int| 0 <= k < squad@.len() ==> (#[trigger] squad@[k]).pos.in_world(),
            forall|k: int| 0 <= k < ramparts@.len() ==> (#[trigger] ramparts@[k]).pos.in_world(),
            out@ == orders_to(squad@, ramparts@, core_id, core_pos, i as int),
        decreases squad.len() - i,
    {
        if let Some(action) = give_order(&squad[i], &ramparts, wounded, core_id, core_pos) {
            out.push(Order { creep: squad[i].id, action });
        }
        i = i + 1;
    }
    out
}

/// A dismantler next to its target breaks it, one that is farther does nothing; it never
/// heals.
pub proof fn a_dismantler_breaks_what_it_touches(
    c: SimCreep,
    ramparts: Seq<SimStructure>,
    wounded: Option<SimCreep>,
    core_id: u32,
    core_pos: WPos,
)
    requires
        c.dismantle_power > 0,
    ensures
        ({
            let (pos, id) = breach_target(ramparts, c.pos, core_id, core_pos);
            let order = order_for(c, ramparts, wounded, core_id, core_pos);
            &&& c.pos.tiles_to(pos) <= 1 ==> order == Some(CombatAction::Dismantle(id))
            &&& c.pos.tiles_to(pos) >= 2 ==> order is None
            &&& ramparts.len() == 0 ==> pos == core_pos && id == core_id
        }),
{
}

/// A healer tends the wounded by hand next to it, from afar within three tiles, and not at
/// all beyond; a creep without powers does nothing.
pub proof fn a_healer_tends_in_reach(
    c: SimCreep,
    ramparts: Seq<SimStructure>,
    w: SimCreep,
    core_id: u32,
    core_pos: WPos,
)
    requires
        c.dismantle_power == 0,
    ensures
        ({
            let order = order_for(c, ramparts, Some(w), core_id, core_pos);
            &&& c.heal_power > 0 && c.pos.tiles_to(w.pos) <= 1 ==> order == Some(
                CombatAction::Heal(w.id),
            )
            &&& c.heal_power > 0 && 2 <= c.pos.tiles_to(w.pos) <= 3 ==> order == Some(
                CombatAction::RangedHeal(w.id),
            )
            &&& c.pos.tiles_to(w.pos) >= 4 ==> order is None
            &&& c.heal_power == 0 ==> order is None
            &&& order_for(c, ramparts, None, core_id, core_pos) is None
        }),
{
}

/// Of several with as few hits the first is the one that is tended.
pub proof fn the_first_of_the_weakest_is_tended(s: Seq<SimCreep>, i: int)
    requires
        0 <= i < s.len(),
        forall|k: int| 0 <= k < i ==> (#[trigger] s[k]).hits > s[i].hits,
        forall|k: int| i < k < s.len() ==> (#[trigger] s[k]).hits >= s[i].hits,
    ensures
        weakest(s) == Some(s[i]),
    decreases s.len(),
{
    let d = s.drop_last();
    let n = s.len() - 1;
    if i < n {
        assert(s[n].hits >= s[i].hits);
        the_first_of_the_weakest_is_tended(d, i);
    } else if d.len() > 0 {
        weakest_is_least(d, 0);
        let w = weakest(d)->0;
        let j = choose|j: int| 0 <= j < d.len() && d[j] == w;
        assert(s[j].hits > s[i].hits);
    }
}

/// Of several as near the first is the one that is broken.
pub proof fn the_first_of_the_nearest_is_broken(s: Seq<SimStructure>, from: WPos, i: int)
    requires
        0 <= i < s.len(),
        forall|k: int| 0 <= k < i ==> from.tiles_to((#[trigger] s[k]).pos) > from.tiles_to(s[i].pos),
        forall|k: int|
            i < k < s.len() ==> from.tiles_to((#[trigger] s[k]).pos) >= from.tiles_to(s[i].pos),
    ensures
        nearest(s, from) == Some(s[i]),
    decreases s.len(),
{
    let d = s.drop_last();
    let n = s.len() - 1;
    if i < n {
        assert(from.tiles_to(s[n].pos) >= from.tiles_to(s[i].pos));
        the_first_of_the_nearest_is_broken(d, from, i);
    } else if d.len() > 0 {
        ramparts_fall_before_the_core(d, from, 0, from, 0);
        let t = breach_target(d, from, 0, from);
        assert(nearest(d, from) is Some);
        let k = choose|k: int| 0 <= k < d.len() && (#[trigger] d[k]).id == t.1 && d[k].pos == t.0;
        assert(from.tiles_to(s[k].pos) > from.tiles_to(s[i].pos));
    }
}

/// Every member that has something to do is ordered to do it, and nothing else is ordered.
pub proof fn every_member_gets_its_order(
    squad: Seq<SimCreep>,
    ramparts: Seq<SimStructure>,
    core_id: u32,
    core_pos: WPos,
    n: int,
    i: int,
)
    requires
        0 <= i < n <= squad.len(),
    ensures
        order_for(squad[i], ramparts, weakest(squad), core_id, core_pos) matches Some(action)
            ==> orders_to(squad, ramparts, core_id, core_pos, n).contains(
            Order { creep: squad[i].id, action },
        ),
        orders_to(squad, ramparts, core_id, core_pos, n).len() <= n,
        forall|k: int|
            0 <= k < orders_to(squad, ramparts, core_id, core_pos, n).len() ==> exists|j: int|
                0 <= j < n && (#[trigger] squad[j]).id == (#[trigger] orders_to(
                    squad,
                    ramparts,
                    core_id,
                    core_pos,
                    n,
                )[k]).creep && order_for(
                    squad[j],
                    ramparts,
                    weakest(squad),
                    core_id,
                    core_pos,
                ) == Some(orders_to(squad, ramparts, core_id, core_pos, n)[k].action),
    decreases n,
{
    let before = orders_to(squad, ramparts, core_id, core_pos, n - 1);
    let all = orders_to(squad, ramparts, core_id, core_pos, n);
    if n > 1 {
        every_member_gets_its_order(squad, ramparts, core_id, core_pos, n - 1, if i < n - 1 {
            i
        } else {
            0
        });
    } else {
        assert(before.len() == 0);
    }
    match order_for(squad[n - 1], ramparts, weakest(squad), core_id, core_pos) {
        Some(action) => {
            let last = Order { creep: squad[n - 1].id, action };
            assert(all == before.push(last));
            assert(all[before.len() as int] == last);
            if i < n - 1 {
                if let Some(a) = order_for(squad[i], ramparts, weakest(squad), core_id, core_pos) {
                    let o = Order { creep: squad[i].id, action: a };
                    let j = choose|j: int| 0 <= j < before.len() && before[j] == o;
                    assert(all[j] == o);
                }
            }
            assert forall|k: int| 0 <= k < all.len() implies exists|j: int|
                0 <= j < n && (#[trigger] squad[j]).id == (#[trigger] all[k]).creep && order_for(
                    squad[j],
                    ramparts,
                    weakest(squad),
                    core_id,
                    core_pos,
                ) == Some(all[k].action) by {
                if k < before.len() {
                    assert(all[k] == before[k]);
                } else {
                    assert(squad[n - 1].id == all[k].creep);
                }
            }
        },
        None => {},
    }
}

/// The siege goes by ramparts that have hits left, whoever owns them.
pub proof fn the_siege_goes_by_what_stands(s: SimStructure)
    ensures
        standing_rampart()(s) <==> s.kind is Rampart && s.hits >= 1,
{
}

} // verus!
