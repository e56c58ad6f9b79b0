//! What is fielded against a scenario, when its run stops, and how the result is
//! scored and named.

use crate::evaluate::{
    all_down, first_reason, AnyOf, Condition, ControllerNeutralized, ObjectivesDestroyed, RunUntil,
    SideWiped, StopReason,
};
use crate::position::WPos;
use crate::profile::{
    fighters, fighting, force_hits, hits_of, hits_or_zero, lemma_total_bound, structure_hits, total,
};
use crate::scenario::{Objective, ObjectiveKind, Scenario};
use crate::staging::SquadRole;
use crate::world::{CombatWorld, PlayerId, SimCreep};
use vstd::prelude::*;
use vstd::string::*;

verus! {

/// Dismantlers and healers of the strongest squad that is graded against.
pub const CEILING_DISMANTLERS: usize = 3;

pub const CEILING_HEALERS: usize = 5;

/// How a plan means to win.
#[derive(Clone, Copy, Debug, PartialEq, Eq, Structural)]
pub enum AssaultMode {
    Breach,
    Drain,
    /// Neither of these.
    Other,
}

/// What a plan says of a scenario.
#[derive(Clone, Copy, Debug, PartialEq, Eq, Structural)]
pub struct PlanSummary {
    pub winnable: bool,
    pub mode: AssaultMode,
    /// A composition carries the force that it takes.
    pub has_composition: bool,
}

/// Which force is fielded.
#[derive(Clone, Copy, Debug, PartialEq, Eq, Structural)]
pub enum Fielded {
    Sized,
    Ceiling,
}

/// A member of a squad that is built for one role.
#[derive(Clone, Copy, Debug, PartialEq, Eq, Structural)]
pub struct RoleSlot {
    pub role: SquadRole,
    pub parts: u32,
}

/// The force that is fielded under a plan, and a line on why.
pub open spec fn fielded_under(p: PlanSummary, reason: Seq<char>) -> (Fielded, Seq<char>) {
    if p.winnable && p.mode == AssaultMode::Breach {
        if p.has_composition {
            (Fielded::Sized, "winnable → fielded the sized force"@)
        } else {
            (
                Fielded::Ceiling,
                "winnable but the comp can't field the required force; showing the ceiling"@,
            )
        }
    } else if p.winnable {
        (Fielded::Ceiling, "winnable (drain mode); showing the ceiling"@)
    } else {
        (Fielded::Ceiling, "deferred ("@ + reason + "); showing the ceiling"@)
    }
}

/// The force that is fielded under a plan, and a line on why.
pub fn choose_fielded_comp(p: PlanSummary, reason: &str) -> (r: (Fielded, String))
    ensures
        (r.0, r.1@) == fielded_under(p, reason@),
{
    if p.winnable && p.mode == AssaultMode::Breach {
        if p.has_composition {
            (Fielded::Sized, String::from_str("winnable → fielded the sized force"))
        } else {
            (
                Fielded::Ceiling,
                String::from_str(
                    "winnable but the comp can't field the required force; showing the ceiling",
                ),
            )
        }
    } else if p.winnable {
        (Fielded::Ceiling, String::from_str("winnable (drain mode); showing the ceiling"))
    } else {
        let mut s: String = String::from_str("deferred (");
        s.append(reason);
        s.append("); showing the ceiling");
        assert(s@ =~= "deferred ("@ + reason@ + "); showing the ceiling"@);
        (Fielded::Ceiling, s)
    }
}

/// The largest part count that can be built, 0 if none can.
pub open spec fn is_largest_buildable(buildable: Seq<bool>, r: u32) -> bool {
    &&& r <= buildable.len()
    &&& r > 0 ==> buildable[r - 1]
    &&& forall|k: int| r <= k < buildable.len() ==> !(#[trigger] buildable[k])
}

/// The most parts of one role that a body is tried with.
pub const MOST_ROLE_PARTS: u32 = 25;

/// The largest part count of one role that a member can carry. `buildable[n - 1]`
/// says whether a body with `n` parts can be built, up to [`MOST_ROLE_PARTS`].
pub fn max_role_parts(buildable: &Vec<bool>) -> (r: u32)
    requires
        buildable@.len() <= u32::MAX,
    ensures
        is_largest_buildable(buildable@, r),
{
    let mut n: usize = buildable.len();
    while n > 0
        invariant
            n <= buildable@.len() <= u32::MAX,
            forall|k: int| n <= k < buildable@.len() ==> !(#[trigger] buildable@[k]),
        decreases n,
    {
        if buildable[n - 1] {
            return n as u32;
        }
        n = n - 1;
    }
    0
}

pub open spec fn slots_of(role: SquadRole, parts: u32, n: nat) -> Seq<RoleSlot> {
    Seq::new(n, |i: int| RoleSlot { role, parts })
}

/// The strongest squad that is graded against: each role only if a member for it
/// can be built.
pub open spec fn ceiling_slots(work: u32, heal: u32) -> Seq<RoleSlot> {
    slots_of(
        SquadRole::Dismantler,
        work,
        if work > 0 {
            CEILING_DISMANTLERS as nat
        } else {
            0
        },
    ) + slots_of(
        SquadRole::Healer,
        heal,
        if heal > 0 {
            CEILING_HEALERS as nat
        } else {
            0
        },
    )
}

/// The squad that a moving assault fields: two that shoot and two that heal.
pub open spec fn assault_slots(ranged: u32, heal: u32) -> Seq<RoleSlot> {
    slots_of(SquadRole::RangedDps, ranged, 2) + slots_of(SquadRole::Healer, heal, 2)
}

fn push_slots(out: &mut Vec<RoleSlot>, role: SquadRole, parts: u32, n: usize)
    ensures
        final(out)@ == old(out)@ + slots_of(role, parts, n as nat),
{
    let ghost before = out@;
    let mut i: usize = 0;
    assert(out@ =~= before + slots_of(role, parts, 0));
    while i < n
        invariant
            i <= n,
            out@ == before + slots_of(role, parts, i as nat),
        decreases n - i,
    {
        out.push(RoleSlot { role, parts });
        i = i + 1;
        assert(out@ =~= before + slots_of(role, parts, i as nat));
    }
}

/// The strongest squad that is graded against, from the largest part counts of a
/// dismantler and a healer.
pub fn siege_ceiling(work: u32, heal: u32) -> (r: Vec<RoleSlot>)
    ensures
        r@ == ceiling_slots(work, heal),
{
    let mut out: Vec<RoleSlot> = Vec::new();
    let d: usize = if work > 0 {
        CEILING_DISMANTLERS
    } else {
        0
    };
    let h: usize = if heal > 0 {
        CEILING_HEALERS
    } else {
        0
    };
    push_slots(&mut out, SquadRole::Dismantler, work, d);
    push_slots(&mut out, SquadRole::Healer, heal, h);
    assert(out@ =~= ceiling_slots(work, heal));
    out
}

/// The squad that a moving assault fields.
pub fn managed_assault_comp(ranged: u32, heal: u32) -> (r: Vec<RoleSlot>)
    ensures
        r@ == assault_slots(ranged, heal),
{
    let mut out: Vec<RoleSlot> = Vec::new();
    push_slots(&mut out, SquadRole::RangedDps, ranged, 2);
    push_slots(&mut out, SquadRole::Healer, heal, 2);
    assert(out@ =~= assault_slots(ranged, heal));
    out
}

/// A condition in terms of what it watches.
pub open spec fn watches_side(c: Condition, owner: PlayerId) -> bool {
    c matches Condition::Wiped(w) && w.0 == owner
}

pub open spec fn watches_target(c: Condition, id: u32) -> bool {
    c matches Condition::Destroyed(d) && d.0@ == seq![id]
}

pub open spec fn watches_controller(c: Condition, pos: WPos) -> bool {
    c matches Condition::Neutralized(n) && n.0 == pos
}

/// What ends a run, in order: the attacker's end always, and what the kind of the
/// objective says.
pub open spec fn stops_for(s: Scenario, o: Objective, conds: Seq<Condition>) -> bool {
    &&& conds.len() == if o.kind == ObjectiveKind::Farm {
        1int
    } else {
        2int
    }
    &&& watches_side(conds[0], s.attacker_owner)
    &&& match o.kind {
        ObjectiveKind::Raze | ObjectiveKind::Breach => watches_target(conds[1], o.id),
        ObjectiveKind::Secure => watches_side(conds[1], s.defender_owner),
        ObjectiveKind::Declaim => watches_controller(conds[1], o.pos),
        ObjectiveKind::Farm => true,
    }
}

fn target_condition(id: u32) -> (c: Condition)
    ensures
        watches_target(c, id),
{
    let mut ids: Vec<u32> = Vec::new();
    ids.push(id);
    assert(ids@ =~= seq![id]);
    Condition::Destroyed(ObjectivesDestroyed(ids))
}

/// What ends a run against an objective.
pub fn run_until_for(s: &Scenario, o: &Objective) -> (r: AnyOf)
    ensures
        stops_for(*s, *o, r.0@),
{
    let mut conds: Vec<Condition> = Vec::new();
    conds.push(Condition::Wiped(SideWiped(s.attacker_owner)));
    match o.kind {
        ObjectiveKind::Raze | ObjectiveKind::Breach => {
            conds.push(target_condition(o.id));
        },
        ObjectiveKind::Secure => {
            conds.push(Condition::Wiped(SideWiped(s.defender_owner)));
        },
        ObjectiveKind::Declaim => {
            conds.push(Condition::Neutralized(ControllerNeutralized(o.pos)));
        },
        ObjectiveKind::Farm => {},
    }
    AnyOf(conds)
}

/// What ends a run where both sides are played: the target's fall, the attacker's
/// end, and the defenders' end if there are any.
pub open spec fn stops_self_play(
    s: Scenario,
    o: Objective,
    defended: bool,
    conds: Seq<Condition>,
) -> bool {
    &&& conds.len() == if defended {
        3int
    } else {
        2int
    }
    &&& watches_target(conds[0], o.id)
    &&& watches_side(conds[1], s.attacker_owner)
    &&& defended ==> watches_side(conds[2], s.defender_owner)
}

/// What ends a run where both sides are played.
pub fn run_until_self_play(s: &Scenario, o: &Objective, defended: bool) -> (r: AnyOf)
    ensures
        stops_self_play(*s, *o, defended, r.0@),
{
    let mut conds: Vec<Condition> = Vec::new();
    conds.push(target_condition(o.id));
    conds.push(Condition::Wiped(SideWiped(s.attacker_owner)));
    if defended {
        conds.push(Condition::Wiped(SideWiped(s.defender_owner)));
    }
    AnyOf(conds)
}

/// What ends an assault on a core: its fall, or the attacker's end. Defenders may die
/// out; as long as the core stands the assault goes on.
pub open spec fn stops_assault(s: Scenario, o: Objective, conds: Seq<Condition>) -> bool {
    &&& conds.len() == 2
    &&& watches_target(conds[0], o.id)
    &&& watches_side(conds[1], s.attacker_owner)
}

/// What ends an assault on a core.
pub fn run_until_assault(s: &Scenario, o: &Objective) -> (r: AnyOf)
    ensures
        stops_assault(*s, *o, r.0@),
{
    let mut conds: Vec<Condition> = Vec::new();
    conds.push(target_condition(o.id));
    conds.push(Condition::Wiped(SideWiped(s.attacker_owner)));
    AnyOf(conds)
}

/// An assault stops as soon as the core is down or the attackers are, in this order, and
/// for nothing else that the world shows.
pub proof fn assault_watches_core_and_attacker(
    s: Scenario,
    o: Objective,
    conds: Seq<Condition>,
    world: CombatWorld,
    tick: u32,
)
    requires
        stops_assault(s, o, conds),
    ensures
        first_reason(conds, world, tick) == if !world.target_up(o.id) {
            Some(StopReason::ObjectivesComplete)
        } else if !world.stands(s.attacker_owner) {
            Some(StopReason::SideWiped(s.attacker_owner))
        } else {
            None
        },
{
    reveal_with_fuel(first_reason, 3);
    let d = conds[0]->Destroyed_0;
    assert(d.0@[0] == o.id);
    assert(all_down(world, d.0@) <==> !world.target_up(o.id));
    assert(conds.drop_last()[0] == conds[0]);
}

/// An undefended base never counts as wiped: a run against it is not over before it
/// began on that account.
pub proof fn undefended_run_does_not_watch_the_defender(
    s: Scenario,
    o: Objective,
    conds: Seq<Condition>,
    i: int,
)
    requires
        stops_self_play(s, o, false, conds),
        s.attacker_owner != s.defender_owner,
        0 <= i < conds.len(),
    ensures
        !watches_side(conds[i], s.defender_owner),
{
}

/// How an assault on a defended base went.
#[derive(Clone, Copy, Debug, PartialEq, Eq, Structural)]
pub struct AssaultScore {
    pub objective_hp_removed: u32,
    pub objective_destroyed: bool,
    pub attacker_hp_retained: u32,
    pub ticks: u32,
    pub score: i64,
}

/// The score of an assault: hits removed, a bonus for the kill, twice the hits that
/// the attacker kept, and a penalty per tick.
pub open spec fn scored(
    before: CombatWorld,
    after: CombatWorld,
    id: u32,
    attacker: PlayerId,
    ticks: u32,
) -> AssaultScore {
    let h0 = hits_or_zero(hits_of(before.structures@, id));
    let h1 = hits_or_zero(hits_of(after.structures@, id));
    let removed: u32 = if h0 >= h1 {
        (h0 - h1) as u32
    } else {
        0
    };
    let kept = force_hits(after.creeps@.filter(fighting(attacker)));
    AssaultScore {
        objective_hp_removed: removed,
        objective_destroyed: h1 == 0,
        attacker_hp_retained: kept as u32,
        ticks,
        score: (removed + if h1 == 0 {
            50_000int
        } else {
            0int
        } + kept * 2 - ticks * 10) as i64,
    }
}

fn sum_hits(s: &Vec<SimCreep>) -> (r: u32)
    requires
        force_hits(s@) <= u32::MAX,
    ensures
        r == force_hits(s@),
{
    let ghost h = Seq::new(s@.len(), |i: int| s@[i].hits as int);
    let mut sum: u32 = 0;
    let mut i: usize = 0;
    assert(h.take(0) =~= Seq::<int>::empty());
    while i < s.len()
        invariant
            i <= s@.len(),
            h == Seq::new(s@.len(), |k: int| s@[k].hits as int),
            total(h) <= u32::MAX,
            sum == total(h.take(i as int)),
        decreases s.len() - i,
    {
        proof {
            assert(h.take(i as int + 1).drop_last() =~= h.take(i as int));
            lemma_total_bound(h, i as int + 1);
        }
        sum = sum + s[i].hits;
        i = i + 1;
    }
    assert(h.take(i as int) =~= h);
    sum
}

/// Scores an assault from the worlds before and after it.
pub fn assault_score(
    before: &CombatWorld,
    after: &CombatWorld,
    id: u32,
    attacker: PlayerId,
    ticks: u32,
) -> (r: AssaultScore)
    requires
        force_hits(after.creeps@.filter(fighting(attacker))) <= u32::MAX,
    ensures
        r == scored(*before, *after, id, attacker, ticks),
{
    let h0: u32 = match structure_hits(&before.structures, id) {
        Some(h) => h,
        None => 0,
    };
    let h1: u32 = match structure_hits(&after.structures, id) {
        Some(h) => h,
        None => 0,
    };
    let removed: u32 = if h0 >= h1 {
        h0 - h1
    } else {
        0
    };
    let kept: u32 = sum_hits(&fighters(after, attacker));
    let bonus: i64 = if h1 == 0 {
        50_000
    } else {
        0
    };
    let score: i64 = removed as i64 + bonus + kept as i64 * 2 - ticks as i64 * 10;
    AssaultScore {
        objective_hp_removed: removed,
        objective_destroyed: h1 == 0,
        attacker_hp_retained: kept,
        ticks,
        score,
    }
}

/// Keeping more hits, or taking fewer ticks, never lowers the score.
pub proof fn score_rewards_efficiency(
    before: CombatWorld,
    a: CombatWorld,
    b: CombatWorld,
    id: u32,
    attacker: PlayerId,
    ta: u32,
    tb: u32,
)
    requires
        0 <= force_hits(a.creeps@.filter(fighting(attacker))) <= force_hits(
            b.creeps@.filter(fighting(attacker)),
        ) <= u32::MAX,
        hits_of(a.structures@, id) == hits_of(b.structures@, id),
        tb <= ta,
    ensures
        scored(before, a, id, attacker, ta).score <= scored(before, b, id, attacker, tb).score,
{
}

/// How a self-played run ended, in words.
pub open spec fn self_play_words(stop: StopReason, attacker: PlayerId) -> Seq<char> {
    match stop {
        StopReason::ObjectivesComplete => "objective destroyed"@,
        StopReason::ControllerNeutralized => "controller neutralized"@,
        StopReason::SideWiped(o) => if o == attacker {
            "attacker wiped"@
        } else {
            "defender wiped"@
        },
        StopReason::Timeout => "timed out"@,
    }
}

/// How a self-played run ended, in words.
pub fn self_play_result(stop: StopReason, attacker: PlayerId) -> (r: &'static str)
    ensures
        r@ == self_play_words(stop, attacker),
{
    match stop {
        StopReason::ObjectivesComplete => "objective destroyed",
        StopReason::ControllerNeutralized => "controller neutralized",
        StopReason::SideWiped(o) => if o == attacker {
            "attacker wiped"
        } else {
            "defender wiped"
        },
        StopReason::Timeout => "timed out",
    }
}

/// How an assault ended, in words; `complete` names the objective's fall.
pub open spec fn assault_words(stop: StopReason, complete: Seq<char>) -> Seq<char> {
    match stop {
        StopReason::ObjectivesComplete => complete,
        StopReason::ControllerNeutralized => "controller neutralized"@,
        StopReason::SideWiped(_) => "attackers wiped"@,
        StopReason::Timeout => "held (timed out)"@,
    }
}

/// How a moving assault ended, in words.
pub fn managed_result(stop: StopReason) -> (r: &'static str)
    ensures
        r@ == assault_words(stop, "objective destroyed"@),
{
    match stop {
        StopReason::ObjectivesComplete => "objective destroyed",
        StopReason::ControllerNeutralized => "controller neutralized",
        StopReason::SideWiped(_) => "attackers wiped",
        StopReason::Timeout => "held (timed out)",
    }
}

/// How a scripted siege ended, in words.
pub fn calibration_result(stop: StopReason) -> (r: &'static str)
    ensures
        r@ == assault_words(stop, "BREACHED"@),
{
    match stop {
        StopReason::ObjectivesComplete => "BREACHED",
        StopReason::ControllerNeutralized => "controller neutralized",
        StopReason::SideWiped(_) => "attackers wiped",
        StopReason::Timeout => "held (timed out)",
    }
}

// ── What a score is for ────────────────────────────────────────────────────

/// No structure of the world has this id.
pub open spec fn is_gone(w: CombatWorld, id: u32) -> bool {
    forall|i: int| 0 <= i < w.structures@.len() ==> (#[trigger] w.structures@[i]).id != id
}

/// The structure with this id has `h` hits.
pub open spec fn has_hits(w: CombatWorld, id: u32, h: u32) -> bool {
    exists|i: int|
        0 <= i < w.structures@.len() && (#[trigger] w.structures@[i]).id == id
            && w.structures@[i].hits == h && forall|j: int|
            0 <= j < i ==> (#[trigger] w.structures@[j]).id != id
}

proof fn lemma_hits_of_gone(s: Seq<crate::world::SimStructure>, id: u32)
    requires
        forall|i: int| 0 <= i < s.len() ==> (#[trigger] s[i]).id != id,
    ensures
        hits_of(s, id) is None,
    decreases s.len(),
{
    if s.len() > 0 {
        assert(s[s.len() - 1].id != id);
        assert forall|i: int| 0 <= i < s.drop_last().len() implies (
        #[trigger] s.drop_last()[i]).id != id by {
            assert(s[i].id != id);
        }
        lemma_hits_of_gone(s.drop_last(), id);
    }
}

proof fn lemma_hits_of_first(s: Seq<crate::world::SimStructure>, id: u32, i: int)
    requires
        0 <= i < s.len(),
        s[i].id == id,
        forall|j: int| 0 <= j < i ==> (#[trigger] s[j]).id != id,
    ensures
        hits_of(s, id) == Some(s[i].hits),
    decreases s.len(),
{
    let t = s.drop_last();
    if i < t.len() {
        assert(t[i] == s[i]);
        assert forall|j: int| 0 <= j < i implies (#[trigger] t[j]).id != id by {
            assert(s[j].id != id);
        }
        lemma_hits_of_first(t, id, i);
    } else {
        assert forall|j: int| 0 <= j < t.len() implies (#[trigger] t[j]).id != id by {
            assert(s[j].id != id);
        }
        lemma_hits_of_gone(t, id);
    }
}

/// A kill is worth fifty thousand on top of the hits removed: of two assaults on one base
/// that take the same time and keep the same hits, the one that destroys the objective
/// scores that much more than the one that leaves it `left` hits, and those hits.
pub proof fn a_kill_is_worth_its_bonus(
    before: CombatWorld,
    razed: CombatWorld,
    standing: CombatWorld,
    id: u32,
    had: u32,
    left: u32,
    attacker: PlayerId,
    ticks: u32,
)
    requires
        has_hits(before, id, had),
        is_gone(razed, id) || has_hits(razed, id, 0),
        has_hits(standing, id, left),
        0 < left <= had,
        razed.creeps@ == standing.creeps@,
        0 <= force_hits(razed.creeps@.filter(fighting(attacker))) <= u32::MAX,
    ensures
        ({
            let a = scored(before, razed, id, attacker, ticks);
            let b = scored(before, standing, id, attacker, ticks);
            &&& a.objective_destroyed
            &&& !b.objective_destroyed
            &&& a.objective_hp_removed == had
            &&& b.objective_hp_removed == had - left
            &&& a.score == b.score + 50_000 + left
        }),
{
    lemma_world_hits(before, id, had);
    lemma_world_hits(standing, id, left);
    if is_gone(razed, id) {
        lemma_hits_of_gone(razed.structures@, id);
    } else {
        lemma_world_hits(razed, id, 0);
    }
}

proof fn lemma_world_hits(w: CombatWorld, id: u32, h: u32)
    requires
        has_hits(w, id, h),
    ensures
        hits_of(w.structures@, id) == Some(h),
{
    let i = choose|i: int|
        0 <= i < w.structures@.len() && (#[trigger] w.structures@[i]).id == id
            && w.structures@[i].hits == h && forall|j: int|
            0 <= j < i ==> (#[trigger] w.structures@[j]).id != id;
    lemma_hits_of_first(w.structures@, id, i);
}

/// Of two assaults that leave the objective standing, each hit removed is worth one, each
/// hit kept two, and each tick costs ten.
pub proof fn score_weighs_hits_and_ticks(
    before: CombatWorld,
    a: CombatWorld,
    b: CombatWorld,
    id: u32,
    had: u32,
    left_a: u32,
    left_b: u32,
    attacker: PlayerId,
    ta: u32,
    tb: u32,
)
    requires
        has_hits(before, id, had),
        has_hits(a, id, left_a),
        has_hits(b, id, left_b),
        0 < left_a <= had,
        0 < left_b <= had,
        0 <= force_hits(a.creeps@.filter(fighting(attacker))) <= u32::MAX,
        0 <= force_hits(b.creeps@.filter(fighting(attacker))) <= u32::MAX,
    ensures
        ({
            let x = scored(before, a, id, attacker, ta);
            let y = scored(before, b, id, attacker, tb);
            let (ka, kb) = (
                force_hits(a.creeps@.filter(fighting(attacker))),
                force_hits(b.creeps@.filter(fighting(attacker))),
            );
            &&& x.attacker_hp_retained == ka
            &&& x.ticks == ta
            &&& x.score - y.score == (left_b - left_a) + 2 * (ka - kb) - 10 * (ta - tb)
        }),
{
    lemma_world_hits(before, id, had);
    lemma_world_hits(a, id, left_a);
    lemma_world_hits(b, id, left_b);
}

/// An assault that does nothing at all scores nothing but what it kept.
pub proof fn an_idle_assault_scores_what_it_keeps(
    w: CombatWorld,
    id: u32,
    had: u32,
    attacker: PlayerId,
)
    requires
        has_hits(w, id, had),
        had > 0,
        0 <= force_hits(w.creeps@.filter(fighting(attacker))) <= u32::MAX,
    ensures
        scored(w, w, id, attacker, 0).objective_hp_removed == 0,
        scored(w, w, id, attacker, 0).score == 2 * force_hits(
            w.creeps@.filter(fighting(attacker)),
        ),
{
    lemma_world_hits(w, id, had);
}

// ── What is fielded ────────────────────────────────────────────────────────

/// The sized force is fielded only against a breach that is thought winnable and that it can
/// carry; every other plan shows the ceiling, for its own reason.
pub proof fn the_ceiling_stands_in(p: PlanSummary, reason: Seq<char>)
    ensures
        fielded_under(p, reason).0 == Fielded::Sized <==> p.winnable && p.mode is Breach
            && p.has_composition,
        !p.winnable ==> fielded_under(p, reason).1 == "deferred ("@ + reason
            + "); showing the ceiling"@,
        p.winnable && !(p.mode is Breach) ==> fielded_under(p, reason).1
            == "winnable (drain mode); showing the ceiling"@,
        p.winnable && p.mode is Breach && p.has_composition ==> fielded_under(p, reason).1
            == "winnable → fielded the sized force"@,
{
}

/// The ceiling has three dismantlers and five healers, each of one size; a role that cannot
/// be built is left out without touching the other.
pub proof fn a_ceiling_has_its_members(work: u32, heal: u32, i: int)
    ensures
        work > 0 && heal > 0 ==> ceiling_slots(work, heal).len() == 8,
        work > 0 && heal == 0 ==> ceiling_slots(work, heal).len() == 3,
        work == 0 && heal > 0 ==> ceiling_slots(work, heal).len() == 5,
        work == 0 && heal == 0 ==> ceiling_slots(work, heal).len() == 0,
        0 <= i < 3 && work > 0 ==> ceiling_slots(work, heal)[i] == (RoleSlot {
            role: SquadRole::Dismantler,
            parts: work,
        }),
        3 <= i < 8 && work > 0 && heal > 0 ==> ceiling_slots(work, heal)[i] == (RoleSlot {
            role: SquadRole::Healer,
            parts: heal,
        }),
        0 <= i < 5 && work == 0 && heal > 0 ==> ceiling_slots(work, heal)[i] == (RoleSlot {
            role: SquadRole::Healer,
            parts: heal,
        }),
{
}

/// A moving assault has two that shoot in front of two that heal.
pub proof fn an_assault_has_its_members(ranged: u32, heal: u32, i: int)
    ensures
        assault_slots(ranged, heal).len() == 4,
        0 <= i < 2 ==> assault_slots(ranged, heal)[i] == (RoleSlot {
            role: SquadRole::RangedDps,
            parts: ranged,
        }),
        2 <= i < 4 ==> assault_slots(ranged, heal)[i] == (RoleSlot {
            role: SquadRole::Healer,
            parts: heal,
        }),
{
}

/// There is one largest part count: nothing larger can be built, and it can unless it is
/// zero.
pub proof fn the_largest_buildable_is_one(b: Seq<bool>, r: u32, q: u32, k: int)
    requires
        is_largest_buildable(b, r),
    ensures
        is_largest_buildable(b, q) ==> q == r,
        0 <= k < b.len() && b[k] ==> k + 1 <= r,
        r > 0 ==> b[r - 1],
        r <= b.len(),
{
    if is_largest_buildable(b, q) && q != r {
        if q < r {
            assert(!b[r - 1]);
        } else {
            assert(!b[q - 1]);
        }
    }
}

/// A run ends as its objective says: the attacker's end always, and first; a target's fall,
/// the defenders' end or the controller's loss as the kind has it; a farm ends with nothing
/// else.
pub proof fn a_run_ends_by_its_kind(
    s: Scenario,
    o: Objective,
    conds: Seq<Condition>,
    world: CombatWorld,
    tick: u32,
)
    requires
        stops_for(s, o, conds),
    ensures
        ({
            let why = first_reason(conds, world, tick);
            let up = world.stands(s.attacker_owner);
            &&& !up ==> why == Some(StopReason::SideWiped(s.attacker_owner))
            &&& up && o.kind is Farm ==> why is None
            &&& up && (o.kind is Raze || o.kind is Breach) ==> why == if world.target_up(o.id) {
                None
            } else {
                Some(StopReason::ObjectivesComplete)
            }
            &&& up && o.kind is Secure ==> why == if world.stands(s.defender_owner) {
                None
            } else {
                Some(StopReason::SideWiped(s.defender_owner))
            }
            &&& up && o.kind is Declaim ==> why == if world.controlled(o.pos) {
                None
            } else {
                Some(StopReason::ControllerNeutralized)
            }
        }),
{
    reveal_with_fuel(first_reason, 3);
    assert(conds.drop_last().len() == conds.len() - 1);
    if !(o.kind is Farm) {
        assert(conds.drop_last()[0] == conds[0]);
        assert(conds.last() == conds[1]);
        if o.kind is Raze || o.kind is Breach {
            let d = conds[1]->Destroyed_0;
            assert(d.0@[0] == o.id);
            assert(all_down(world, d.0@) <==> !world.target_up(o.id));
        }
    } else {
        assert(conds.last() == conds[0]);
    }
}

/// With both sides played a run ends with the target, the attackers, or the defenders, in this
/// order, the last only where there were any.
pub proof fn a_played_run_ends_with_a_side(
    s: Scenario,
    o: Objective,
    defended: bool,
    conds: Seq<Condition>,
    world: CombatWorld,
    tick: u32,
)
    requires
        stops_self_play(s, o, defended, conds),
    ensures
        first_reason(conds, world, tick) == if !world.target_up(o.id) {
            Some(StopReason::ObjectivesComplete)
        } else if !world.stands(s.attacker_owner) {
            Some(StopReason::SideWiped(s.attacker_owner))
        } else if defended && !world.stands(s.defender_owner) {
            Some(StopReason::SideWiped(s.defender_owner))
        } else {
            None
        },
{
    let two = conds.take(2);
    assert(stops_assault(s, o, two)) by {
        assert(two[0] == conds[0] && two[1] == conds[1]);
    }
    assault_watches_core_and_attacker(s, o, two, world, tick);
    if defended {
        assert(conds.drop_last() =~= two);
    } else {
        assert(conds =~= two);
    }
}

/// The words for an end tell whose end it was.
pub proof fn ends_are_told_apart(attacker: PlayerId, other: PlayerId, complete: Seq<char>)
    requires
        other != attacker,
    ensures
        self_play_words(StopReason::SideWiped(attacker), attacker) == "attacker wiped"@,
        self_play_words(StopReason::SideWiped(other), attacker) == "defender wiped"@,
        self_play_words(StopReason::ObjectivesComplete, attacker) == "objective destroyed"@,
        self_play_words(StopReason::ControllerNeutralized, attacker) == "controller neutralized"@,
        self_play_words(StopReason::Timeout, attacker) == "timed out"@,
        assault_words(StopReason::ObjectivesComplete, complete) == complete,
        assault_words(StopReason::SideWiped(attacker), complete) == "attackers wiped"@,
        assault_words(StopReason::ControllerNeutralized, complete) == "controller neutralized"@,
        assault_words(StopReason::Timeout, complete) == "held (timed out)"@,
{
}

/// A body of fifty parts, half of which carry it, has at most twenty-five of one role.
pub proof fn a_role_has_half_a_body(parts: int)
    ensures
        parts <= MOST_ROLE_PARTS <==> 2 * parts <= 50,
{
}

} // verus!
