//! Bases captured from a room planner: the structures that combat knows, and which
//! rooms are still to be planned.

use crate::terrain_import::TerrainFixture;
use vstd::prelude::*;
use vstd::string::*;

verus! {

/// What a planner places on a tile.
#[derive(Clone, Copy, Debug, PartialEq, Eq, Structural)]
pub enum PlannedKind {
    Spawn,
    Tower,
    Rampart,
    Wall,
    /// Roads, extensions and all else that combat does not know.
    Other,
}

/// A structure as planned.
#[derive(Clone, Copy, Debug, PartialEq, Eq, Structural)]
pub struct PlannedItem {
    pub kind: PlannedKind,
    pub x: u8,
    pub y: u8,
}

/// A structure of a captured base.
#[derive(Clone, Debug)]
pub struct CapturedStructure {
    pub kind: String,
    pub x: u8,
    pub y: u8,
}

/// A room's terrain and the combat structures of its plan.
#[derive(Debug)]
pub struct CapturedBase {
    pub room: String,
    pub terrain: String,
    pub controller: (u8, u8),
    pub structures: Vec<CapturedStructure>,
}

impl Clone for CapturedBase {
    fn clone(&self) -> (r: Self)
        ensures
            r.room@ == self.room@,
            r.terrain@ == self.terrain@,
            r.controller == self.controller,
            r.structures@.len() == self.structures@.len(),
            forall|i: int|
                0 <= i < self.structures@.len() ==> {
                    let a = #[trigger] self.structures@[i];
                    let b = r.structures@[i];
                    b.kind@ == a.kind@ && b.x == a.x && b.y == a.y
                },
    {
        let mut structures: Vec<CapturedStructure> = Vec::new();
        let mut i: usize = 0;
        while i < self.structures.len()
            invariant
                i <= self.structures.len(),
                structures@.len() == i,
                forall|k: int|
                    0 <= k < i ==> {
                        let a = #[trigger] self.structures@[k];
                        let b = structures@[k];
                        b.kind@ == a.kind@ && b.x == a.x && b.y == a.y
                    },
            decreases self.structures.len() - i,
        {
            let s = &self.structures[i];
            structures.push(CapturedStructure { kind: s.kind.clone(), x: s.x, y: s.y });
            i = i + 1;
        }
        CapturedBase {
            room: self.room.clone(),
            terrain: self.terrain.clone(),
            controller: self.controller,
            structures,
        }
    }
}

pub open spec fn kind_name(k: PlannedKind) -> Option<Seq<char>> {
    match k {
        PlannedKind::Spawn => Some("spawn"@),
        PlannedKind::Tower => Some("tower"@),
        PlannedKind::Rampart => Some("rampart"@),
        PlannedKind::Wall => Some("wall"@),
        PlannedKind::Other => None,
    }
}

/// The name of a kind that combat knows.
pub fn combat_kind(k: PlannedKind) -> (r: Option<&'static str>)
    ensures
        kind_name(k) == match r {
            Some(s) => Some(s@),
            None => None,
        },
{
    match k {
        PlannedKind::Spawn => Some("spawn"),
        PlannedKind::Tower => Some("tower"),
        PlannedKind::Rampart => Some("rampart"),
        PlannedKind::Wall => Some("wall"),
        PlannedKind::Other => None,
    }
}

/// Planned items that combat knows.
pub open spec fn known() -> spec_fn(PlannedItem) -> bool {
    |p: PlannedItem| p.kind != PlannedKind::Other
}

/// A structure that stands for a planned item.
pub open spec fn stands_for(c: CapturedStructure, p: PlannedItem) -> bool {
    kind_name(p.kind) == Some(c.kind@) && c.x == p.x && c.y == p.y
}

/// The structures are those of the plan that combat knows, in its order.
pub open spec fn captured_from(s: Seq<CapturedStructure>, plan: Seq<PlannedItem>) -> bool {
    let k = plan.filter(known());
    s.len() == k.len() && forall|i: int| 0 <= i < s.len() ==> stands_for(#[trigger] s[i], k[i])
}

fn captured_structures(plan: &Vec<PlannedItem>) -> (r: Vec<CapturedStructure>)
    ensures
        captured_from(r@, plan@),
{
    let mut out: Vec<CapturedStructure> = Vec::new();
    let mut i: usize = 0;
    proof {
        reveal(Seq::filter);
        assert(plan@.take(0) =~= Seq::<PlannedItem>::empty());
    }
    while i < plan.len()
        invariant
            i <= plan@.len(),
            captured_from(out@, plan@.take(i as int)),
        decreases plan.len() - i,
    {
        proof {
            crate::colony::lemma_filter_take(plan@, known(), i as int);
        }
        let p: PlannedItem = plan[i];
        if let Some(kind) = combat_kind(p.kind) {
            out.push(CapturedStructure { kind: String::from_str(kind), x: p.x, y: p.y });
        }
        i = i + 1;
    }
    assert(plan@.take(i as int) =~= plan@);
    out
}

/// Why a room could not be planned.
pub open spec fn failure(room: Seq<char>, error: Seq<char>) -> Seq<char> {
    "planning "@ + room + " failed: "@ + error
}

/// The base of a room from its plan, or why there is none.
pub fn capture(fixture: &TerrainFixture, plan: Result<Vec<PlannedItem>, String>) -> (r: Result<
    CapturedBase,
    String,
>)
    ensures
        r is Ok <==> plan is Ok,
        r matches Ok(b) ==> {
            &&& b.room@ == fixture.room@
            &&& b.terrain@ == fixture.terrain@
            &&& b.controller == fixture.controller
            &&& captured_from(b.structures@, plan->Ok_0@)
        },
        r matches Err(e) ==> e@ == failure(fixture.room@, plan->Err_0@),
{
    match plan {
        Err(e) => {
            let mut s: String = String::from_str("planning ");
            s.append(fixture.room.as_str());
            s.append(" failed: ");
            s.append(e.as_str());
            Err(s)
        },
        Ok(items) => Ok(
            CapturedBase {
                room: String::from_str(fixture.room.as_str()),
                terrain: String::from_str(fixture.terrain.as_str()),
                controller: fixture.controller,
                structures: captured_structures(&items),
            },
        ),
    }
}

/// How many structures of each kind a base has.
#[derive(Clone, Copy, Debug, PartialEq, Eq, Structural)]
pub struct KindCounts {
    pub spawns: usize,
    pub towers: usize,
    pub ramparts: usize,
    /// Walls, and whatever has no other name here.
    pub walls: usize,
}

/// How many of the structures have a name.
pub open spec fn named_count(s: Seq<CapturedStructure>, name: Seq<char>) -> int
    decreases s.len(),
{
    if s.len() == 0 {
        0
    } else {
        named_count(s.drop_last(), name) + if s.last().kind@ == name {
            1int
        } else {
            0int
        }
    }
}

pub open spec fn are_counts(c: KindCounts, s: Seq<CapturedStructure>) -> bool {
    &&& c.spawns == named_count(s, "spawn"@)
    &&& c.towers == named_count(s, "tower"@)
    &&& c.ramparts == named_count(s, "rampart"@)
    &&& c.spawns + c.towers + c.ramparts + c.walls == s.len()
}

/// Counts the structures of a base by kind.
pub fn count_kinds(structures: &Vec<CapturedStructure>) -> (c: KindCounts)
    ensures
        are_counts(c, structures@),
{
    let spawn: String = String::from_str("spawn");
    let tower: String = String::from_str("tower");
    let rampart: String = String::from_str("rampart");
    let mut c = KindCounts { spawns: 0, towers: 0, ramparts: 0, walls: 0 };
    let mut i: usize = 0;
    assert(structures@.take(0) =~= Seq::<CapturedStructure>::empty());
    proof {
        reveal_strlit("spawn");
        reveal_strlit("tower");
        reveal_strlit("rampart");
        assert("spawn"@[0] != "tower"@[0]);
        assert("spawn"@[0] != "rampart"@[0]);
        assert("tower"@[0] != "rampart"@[0]);
    }
    while i < structures.len()
        invariant
            i <= structures@.len(),
            spawn@ == "spawn"@,
            tower@ == "tower"@,
            rampart@ == "rampart"@,
            "spawn"@ != "tower"@,
            "spawn"@ != "rampart"@,
            "tower"@ != "rampart"@,
            are_counts(c, structures@.take(i as int)),
        decreases structures.len() - i,
    {
        assert(structures@.take(i as int + 1).drop_last() =~= structures@.take(i as int));
        let k: &String = &structures[i].kind;
        if k.eq(&spawn) {
            c.spawns = c.spawns + 1;
        } else if k.eq(&tower) {
            c.towers = c.towers + 1;
        } else if k.eq(&rampart) {
            c.ramparts = c.ramparts + 1;
        } else {
            c.walls = c.walls + 1;
        }
        i = i + 1;
    }
    assert(structures@.take(i as int) =~= structures@);
    c
}

/// The room is among the captured ones.
pub open spec fn is_captured(room: Seq<char>, bases: Seq<CapturedBase>) -> bool {
    exists|i: int| 0 <= i < bases.len() && (#[trigger] bases[i]).room@ == room
}

/// The places of the first rooms that are not captured yet, at most so many.
pub open spec fn missing(
    fixtures: Seq<TerrainFixture>,
    bases: Seq<CapturedBase>,
    limit: int,
    n: int,
) -> Seq<usize>
    decreases n,
{
    if n <= 0 {
        seq![]
    } else {
        let before = missing(fixtures, bases, limit, n - 1);
        if before.len() < limit && !is_captured(fixtures[n - 1].room@, bases) {
            before.push((n - 1) as usize)
        } else {
            before
        }
    }
}

fn has_base(room: &String, bases: &Vec<CapturedBase>) -> (r: bool)
    ensures
        r == is_captured(room@, bases@),
{
    let mut i: usize = 0;
    while i < bases.len()
        invariant
            i <= bases@.len(),
            forall|k: int| 0 <= k < i ==> (#[trigger] bases@[k]).room@ != room@,
        decreases bases.len() - i,
    {
        if bases[i].room.eq(room) {
            return true;
        }
        i = i + 1;
    }
    false
}

/// The places of the rooms that are to be planned: those not captured yet, in order,
/// at most `limit`.
pub fn to_plan(fixtures: &Vec<TerrainFixture>, bases: &Vec<CapturedBase>, limit: usize) -> (r: Vec<
    usize,
>)
    ensures
        r@ == missing(fixtures@, bases@, limit as int, fixtures@.len() as int),
{
    let mut out: Vec<usize> = Vec::new();
    let mut i: usize = 0;
    while i < fixtures.len()
        invariant
            i <= fixtures@.len(),
            out@ == missing(fixtures@, bases@, limit as int, i as int),
        decreases fixtures.len() - i,
    {
        if out.len() < limit && !has_base(&fixtures[i].room, bases) {
            out.push(i);
        }
        i = i + 1;
    }
    out
}

/// No room that is captured is planned again, and no more than the limit are.
pub proof fn planning_is_incremental(
    fixtures: Seq<TerrainFixture>,
    bases: Seq<CapturedBase>,
    limit: int,
    n: int,
    i: int,
)
    requires
        0 <= n <= fixtures.len(),
        fixtures.len() <= usize::MAX,
        limit >= 0,
    ensures
        missing(fixtures, bases, limit, n).len() <= limit,
        0 <= i < missing(fixtures, bases, limit, n).len() ==> {
            let at = missing(fixtures, bases, limit, n)[i] as int;
            0 <= at < n && !is_captured(fixtures[at].room@, bases)
        },
    decreases n,
{
    if n > 0 {
        planning_is_incremental(fixtures, bases, limit, n - 1, i);
    }
}

/// Every planned item that combat knows is captured where it was planned and under its name,
/// in order; roads and the like are not.
pub proof fn what_combat_knows_is_captured(plan: Seq<PlannedItem>, p: PlannedItem)
    ensures
        p.kind is Other ==> plan.push(p).filter(known()) == plan.filter(known()),
        !(p.kind is Other) ==> plan.push(p).filter(known()) == plan.filter(known()).push(p),
        p.kind is Spawn ==> kind_name(p.kind) == Some("spawn"@),
        p.kind is Tower ==> kind_name(p.kind) == Some("tower"@),
        p.kind is Rampart ==> kind_name(p.kind) == Some("rampart"@),
        p.kind is Wall ==> kind_name(p.kind) == Some("wall"@),
        p.kind is Other ==> kind_name(p.kind) is None,
{
    reveal(Seq::filter);
    assert(plan.push(p).drop_last() =~= plan);
}

/// A captured structure stands on its planned tile.
pub proof fn a_captured_structure_stands_where_planned(
    s: Seq<CapturedStructure>,
    plan: Seq<PlannedItem>,
    i: int,
)
    requires
        captured_from(s, plan),
        0 <= i < s.len(),
    ensures
        exists|k: int|
            0 <= k < plan.len() && (#[trigger] plan[k]).x == s[i].x && plan[k].y == s[i].y
                && kind_name(plan[k].kind) == Some(s[i].kind@),
        s.len() <= plan.len(),
{
    let f = plan.filter(known());
    assert(stands_for(s[i], f[i]));
    assert(f.contains(f[i]));
    plan.lemma_filter_contains_rev(known(), f[i]);
    let k = choose|k: int| 0 <= k < plan.len() && plan[k] == f[i];
    assert(plan[k].x == s[i].x);
    plan.lemma_filter_len(known());
}

/// One more structure counts once, under its name alone.
pub proof fn one_more_structure_counts_once(
    s: Seq<CapturedStructure>,
    x: CapturedStructure,
    name: Seq<char>,
)
    ensures
        x.kind@ == name ==> named_count(s.push(x), name) == named_count(s, name) + 1,
        x.kind@ != name ==> named_count(s.push(x), name) == named_count(s, name),
        named_count(seq![], name) == 0,
{
    assert(s.push(x).drop_last() =~= s);
}

/// A room is planned next exactly where it is not captured and the limit is not reached.
pub proof fn the_next_missing_room_is_planned(
    fixtures: Seq<TerrainFixture>,
    bases: Seq<CapturedBase>,
    limit: int,
    n: int,
    b: int,
)
    requires
        0 <= n < fixtures.len() <= usize::MAX,
    ensures
        ({
            let before = missing(fixtures, bases, limit, n);
            let after = missing(fixtures, bases, limit, n + 1);
            &&& before.len() >= limit ==> after == before
            &&& 0 <= b < bases.len() && bases[b].room@ == fixtures[n].room@ ==> after == before
            &&& before.len() < limit && (forall|k: int|
                0 <= k < bases.len() ==> (#[trigger] bases[k]).room@ != fixtures[n].room@)
                ==> after == before.push(n as usize)
        }),
        missing(fixtures, bases, limit, 0).len() == 0,
{
}

/// One more structure counts under its name, and under walls where it has none of the others.
pub proof fn one_more_structure_counts_by_its_name(
    c: KindCounts,
    d: KindCounts,
    s: Seq<CapturedStructure>,
    x: CapturedStructure,
)
    requires
        are_counts(c, s),
        are_counts(d, s.push(x)),
    ensures
        x.kind@ == "spawn"@ ==> d.spawns == c.spawns + 1 && d.towers == c.towers && d.ramparts
            == c.ramparts && d.walls == c.walls,
        x.kind@ == "tower"@ ==> d.spawns == c.spawns && d.towers == c.towers + 1 && d.ramparts
            == c.ramparts && d.walls == c.walls,
        x.kind@ == "rampart"@ ==> d.spawns == c.spawns && d.towers == c.towers && d.ramparts
            == c.ramparts + 1 && d.walls == c.walls,
        x.kind@ != "spawn"@ && x.kind@ != "tower"@ && x.kind@ != "rampart"@ ==> d.spawns
            == c.spawns && d.towers == c.towers && d.ramparts == c.ramparts && d.walls == c.walls
            + 1,
{
    reveal_strlit("spawn");
    reveal_strlit("tower");
    reveal_strlit("rampart");
    assert("spawn"@[0] == 's' && "tower"@[0] == 't' && "rampart"@[0] == 'r');
    one_more_structure_counts_once(s, x, "spawn"@);
    one_more_structure_counts_once(s, x, "tower"@);
    one_more_structure_counts_once(s, x, "rampart"@);
}

} // verus!
