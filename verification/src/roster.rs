//! Random squads within an energy budget.

use crate::colony::lemma_filter_take;
use crate::profile::total;
use crate::rng::{draw_is_in_bounds, drawn_in, next_state, seed_state, Rng};
use vstd::prelude::*;

verus! {

/// A body part.
#[derive(Clone, Copy, Debug, PartialEq, Eq, Structural)]
pub enum Part {
    Tough,
    Attack,
    RangedAttack,
    Heal,
    Work,
    Move,
    Carry,
    Claim,
}

/// Most parts that a body can have.
pub const MAX_PARTS: usize = 50;

/// What a part costs to spawn.
pub open spec fn cost_of(p: Part) -> u32 {
    match p {
        Part::Tough => 10,
        Part::Move | Part::Carry => 50,
        Part::Attack => 80,
        Part::Work => 100,
        Part::RangedAttack => 150,
        Part::Heal => 250,
        Part::Claim => 600,
    }
}

/// What a part costs to spawn.
pub fn part_cost(p: Part) -> (r: u32)
    ensures
        r == cost_of(p),
        r <= 600,
{
    match p {
        Part::Tough => 10,
        Part::Move | Part::Carry => 50,
        Part::Attack => 80,
        Part::Work => 100,
        Part::RangedAttack => 150,
        Part::Heal => 250,
        Part::Claim => 600,
    }
}

/// When a part is lost: the lowest first.
pub open spec fn loss_rank(p: Part) -> int {
    match p {
        Part::Tough => 0,
        Part::Work => 1,
        Part::Attack => 2,
        Part::RangedAttack => 3,
        Part::Carry => 4,
        Part::Heal => 5,
        Part::Move => 6,
        Part::Claim => 7,
    }
}

/// When a part is lost: toughness first, movement last but for claims.
pub fn degrade_order(p: Part) -> (r: u8)
    ensures
        r == loss_rank(p),
        r < 8,
{
    match p {
        Part::Tough => 0,
        Part::Work => 1,
        Part::Attack => 2,
        Part::RangedAttack => 3,
        Part::Carry => 4,
        Part::Heal => 5,
        Part::Move => 6,
        Part::Claim => 7,
    }
}

/// The parts that are drawn, in drawing order.
pub open spec fn drawn_part(i: int) -> Part {
    if i == 0 {
        Part::Tough
    } else if i == 1 {
        Part::Attack
    } else if i == 2 {
        Part::RangedAttack
    } else if i == 3 {
        Part::Heal
    } else if i == 4 {
        Part::Work
    } else {
        Part::Move
    }
}

/// The weights that are drawn from a state. A draw without any use of its own gets
/// some attack.
pub open spec fn drawn_weights(s0: u64) -> Seq<u32> {
    let s1 = next_state(s0);
    let s2 = next_state(s1);
    let s3 = next_state(s2);
    let s4 = next_state(s3);
    let s5 = next_state(s4);
    let attack = drawn_in(s1, 0, 5);
    let ranged = drawn_in(s2, 0, 5);
    let heal = drawn_in(s3, 0, 4);
    let work = drawn_in(s4, 0, 2);
    seq![
        drawn_in(s0, 0, 3),
        if attack + ranged + heal + work == 0 {
            2
        } else {
            attack
        },
        ranged,
        heal,
        work,
        drawn_in(s5, 2, 5),
    ]
}

/// The state after a body was drawn.
pub open spec fn after_body(s: u64) -> u64 {
    next_state(next_state(next_state(next_state(next_state(next_state(s))))))
}

/// A body in the making: parts so far, how many of each, and what they cost.
#[verifier::ext_equal]
pub struct Growth {
    pub body: Seq<Part>,
    pub counts: Seq<int>,
    pub spent: int,
}

/// The part can still be added.
pub open spec fn addable(w: Seq<u32>, energy: u32, g: Growth, i: int) -> bool {
    &&& w[i] > 0
    &&& g.body.len() < MAX_PARTS
    &&& g.spent + cost_of(drawn_part(i)) <= energy
}

/// The part among the first `n` that is most behind its weight.
pub open spec fn most_behind(w: Seq<u32>, energy: u32, g: Growth, n: int) -> Option<int>
    decreases n,
{
    if n <= 0 {
        None
    } else {
        let before = most_behind(w, energy, g, n - 1);
        if !addable(w, energy, g, n - 1) {
            before
        } else {
            match before {
                Some(b) if !(g.counts[n - 1] * w[b] < g.counts[b] * w[n - 1]) => before,
                _ => Some(n - 1),
            }
        }
    }
}

pub open spec fn grown(g: Growth, i: int) -> Growth {
    Growth {
        body: g.body.push(drawn_part(i)),
        counts: g.counts.update(i, g.counts[i] + 1),
        spent: g.spent + cost_of(drawn_part(i)),
    }
}

/// A body grown as far as it goes.
pub open spec fn full_grown(w: Seq<u32>, energy: u32, g: Growth) -> Growth
    decreases MAX_PARTS - g.body.len(),
{
    match most_behind(w, energy, g, 6) {
        Some(i) if g.body.len() < MAX_PARTS => full_grown(w, energy, grown(g, i)),
        _ => g,
    }
}

pub open spec fn seedling() -> Growth {
    Growth { body: seq![], counts: Seq::new(6, |i: int| 0int), spent: 0 }
}

pub open spec fn ranked(k: int) -> spec_fn(Part) -> bool {
    |p: Part| loss_rank(p) == k
}

/// A body in the order of loss, below rank `n`; parts of one rank keep their order.
pub open spec fn in_loss_order(body: Seq<Part>, n: int) -> Seq<Part>
    decreases n,
{
    if n <= 0 {
        seq![]
    } else {
        in_loss_order(body, n - 1) + body.filter(ranked(n - 1))
    }
}

/// The part fights, heals or dismantles.
pub open spec fn is_of_use(p: Part) -> bool {
    p is Attack || p is RangedAttack || p is Heal || p is Work
}

/// Some part of the body does.
pub open spec fn serves(body: Seq<Part>) -> bool {
    exists|i: int| 0 <= i < body.len() && is_of_use(#[trigger] body[i])
}

/// What is left of a body once parts were dropped from its front until an attack fits in.
pub open spec fn lightened(body: Seq<Part>, energy: u32) -> Seq<Part>
    decreases body.len(),
{
    if body.len() == 0 || (body_cost(body) + cost_of(Part::Attack) <= energy && body.len()
        < MAX_PARTS) {
        body
    } else {
        lightened(body.drop_first(), energy)
    }
}

/// A body that would be inert trades its first parts for an attack, if it can pay for one.
pub open spec fn armed(body: Seq<Part>, energy: u32) -> Seq<Part> {
    if serves(body) || energy < cost_of(Part::Attack) {
        body
    } else {
        in_loss_order(lightened(body, energy).push(Part::Attack), 8)
    }
}

/// The body drawn from a state.
pub open spec fn drawn_body(s: u64, energy: u32) -> Seq<Part> {
    armed(in_loss_order(full_grown(drawn_weights(s), energy, seedling()).body, 8), energy)
}

pub open spec fn body_cost(body: Seq<Part>) -> int {
    total(Seq::new(body.len(), |i: int| cost_of(body[i]) as int))
}

/// The squad of `n` drawn from a state, and the state after it.
pub open spec fn drawn_squad(s: u64, energy: u32, n: nat) -> (Seq<Seq<Part>>, u64)
    decreases n,
{
    if n == 0 {
        (seq![], s)
    } else {
        let (before, at) = drawn_squad(s, energy, (n - 1) as nat);
        (before.push(drawn_body(at, energy)), after_body(at))
    }
}

/// Its books are in order: as many counted as grown, and what they cost.
pub open spec fn sound(g: Growth) -> bool {
    &&& g.counts.len() == 6
    &&& g.body.len() <= MAX_PARTS
    &&& g.spent == body_cost(g.body)
    &&& forall|i: int|
        0 <= i < 6 ==> 0 <= #[trigger] g.counts[i] <= g.body.len() && (g.counts[i] > 0
            ==> g.body.contains(drawn_part(i)))
}

proof fn lemma_most_behind(w: Seq<u32>, energy: u32, g: Growth, n: int)
    requires
        0 <= n <= 6,
    ensures
        most_behind(w, energy, g, n) matches Some(i) ==> 0 <= i < n && addable(w, energy, g, i),
        most_behind(w, energy, g, n) is None ==> forall|i: int|
            0 <= i < n ==> !#[trigger] addable(w, energy, g, i),
    decreases n,
{
    if n > 0 {
        lemma_most_behind(w, energy, g, n - 1);
    }
}

proof fn lemma_grown_sound(w: Seq<u32>, energy: u32, g: Growth, i: int)
    requires
        sound(g),
        0 <= i < 6,
        addable(w, energy, g, i),
    ensures
        sound(grown(g, i)),
        grown(g, i).spent <= energy,
{
    let h = grown(g, i);
    let c = Seq::new(h.body.len(), |k: int| cost_of(h.body[k]) as int);
    assert(c.drop_last() =~= Seq::new(g.body.len(), |k: int| cost_of(g.body[k]) as int));
    assert forall|k: int| 0 <= k < 6 implies 0 <= #[trigger] h.counts[k] <= h.body.len() && (
    h.counts[k] > 0 ==> h.body.contains(drawn_part(k))) by {
        if k == i {
            assert(h.body[g.body.len() as int] == drawn_part(k));
        } else if h.counts[k] > 0 {
            assert(g.counts[k] > 0);
            let j = choose|j: int| 0 <= j < g.body.len() && g.body[j] == drawn_part(k);
            assert(h.body[j] == drawn_part(k));
        }
    }
}

proof fn lemma_full_grown(w: Seq<u32>, energy: u32, g: Growth)
    requires
        sound(g),
        g.spent <= energy,
    ensures
        sound(full_grown(w, energy, g)),
        full_grown(w, energy, g).spent <= energy,
        forall|i: int|
            0 <= i < 6 ==> g.counts[i] <= #[trigger] full_grown(w, energy, g).counts[i],
    decreases MAX_PARTS - g.body.len(),
{
    lemma_most_behind(w, energy, g, 6);
    if let Some(i) = most_behind(w, energy, g, 6) {
        if g.body.len() < MAX_PARTS {
            lemma_grown_sound(w, energy, g, i);
            lemma_full_grown(w, energy, grown(g, i));
            assert forall|k: int| 0 <= k < 6 implies g.counts[k] <= #[trigger] full_grown(
                w,
                energy,
                g,
            ).counts[k] by {
                assert(g.counts[k] <= grown(g, i).counts[k]);
            }
        }
    }
}

proof fn lemma_total_concat(a: Seq<int>, b: Seq<int>)
    ensures
        total(a + b) == total(a) + total(b),
    decreases b.len(),
{
    if b.len() == 0 {
        assert(a + b =~= a);
    } else {
        assert((a + b).drop_last() =~= a + b.drop_last());
        lemma_total_concat(a, b.drop_last());
    }
}

proof fn lemma_cost_concat(a: Seq<Part>, b: Seq<Part>)
    ensures
        body_cost(a + b) == body_cost(a) + body_cost(b),
{
    let f = |s: Seq<Part>| Seq::new(s.len(), |i: int| cost_of(s[i]) as int);
    assert(f(a + b) =~= f(a) + f(b));
    lemma_total_concat(f(a), f(b));
}

pub open spec fn ranked_below(n: int) -> spec_fn(Part) -> bool {
    |p: Part| loss_rank(p) < n
}

proof fn lemma_order_cost(body: Seq<Part>, n: int)
    requires
        0 <= n <= 8,
    ensures
        body_cost(in_loss_order(body, n)) == body_cost(body.filter(ranked_below(n))),
        in_loss_order(body, n).len() == body.filter(ranked_below(n)).len(),
        forall|p: Part|
            in_loss_order(body, n).contains(p) <==> body.contains(p) && loss_rank(p) < n,
    decreases n,
{
    if n == 0 {
        lemma_split(body, 0);
        let none = body.filter(ranked_below(0));
        assert forall|p: Part| !none.contains(p) by {
            if none.contains(p) {
                body.lemma_filter_contains_rev(ranked_below(0), p);
            }
        }
        if none.len() > 0 {
            let k = none.len() - 1;
            body.lemma_filter_pred(ranked_below(0), k);
        }
        assert(none =~= seq![]);
        assert(in_loss_order(body, n) =~= Seq::<Part>::empty());
        assert forall|p: Part| !in_loss_order(body, n).contains(p) && loss_rank(p) >= 0 by {}
    } else {
        lemma_order_cost(body, n - 1);
        let a = in_loss_order(body, n - 1);
        let b = body.filter(ranked(n - 1));
        lemma_cost_concat(a, b);
        lemma_split(body, n);
        assert forall|p: Part|
            (a + b).contains(p) <==> body.contains(p) && loss_rank(p) < n by {
            if (a + b).contains(p) {
                let j = choose|j: int| 0 <= j < (a + b).len() && (a + b)[j] == p;
                if j < a.len() {
                    assert(a[j] == p);
                    assert(a.contains(p));
                } else {
                    assert(b[j - a.len()] == p);
                    assert(b.contains(p));
                    body.lemma_filter_contains_rev(ranked(n - 1), p);
                    body.lemma_filter_pred(ranked(n - 1), j - a.len());
                }
            }
            if body.contains(p) && loss_rank(p) < n {
                if loss_rank(p) < n - 1 {
                    assert(a.contains(p));
                    let j = choose|j: int| 0 <= j < a.len() && a[j] == p;
                    assert((a + b)[j] == p);
                } else {
                    let k = choose|k: int| 0 <= k < body.len() && body[k] == p;
                    body.lemma_filter_contains(ranked(n - 1), k);
                    let j = choose|j: int| 0 <= j < b.len() && b[j] == p;
                    assert((a + b)[a.len() + j] == p);
                }
            }
        }
    }
}

proof fn lemma_split(body: Seq<Part>, n: int)
    ensures
        body_cost(body.filter(ranked_below(n))) == body_cost(body.filter(ranked_below(n - 1)))
            + body_cost(body.filter(ranked(n - 1))),
        body.filter(ranked_below(n)).len() == body.filter(ranked_below(n - 1)).len() + body.filter(
            ranked(n - 1),
        ).len(),
    decreases body.len(),
{
    reveal(Seq::filter);
    if body.len() > 0 {
        let d = body.drop_last();
        let p = body.last();
        lemma_split(d, n);
        assert(seq![p].len() == 1);
        lemma_cost_concat(d.filter(ranked_below(n)), seq![p]);
        lemma_cost_concat(d.filter(ranked_below(n - 1)), seq![p]);
        lemma_cost_concat(d.filter(ranked(n - 1)), seq![p]);
        assert(d.filter(ranked_below(n)).push(p) =~= d.filter(ranked_below(n)) + seq![p]);
        assert(d.filter(ranked_below(n - 1)).push(p) =~= d.filter(ranked_below(n - 1)) + seq![p]);
        assert(d.filter(ranked(n - 1)).push(p) =~= d.filter(ranked(n - 1)) + seq![p]);
    } else {
        assert(body_cost(Seq::<Part>::empty()) == 0) by {
            assert(Seq::new(
                Seq::<Part>::empty().len(),
                |i: int| cost_of(Seq::<Part>::empty()[i]) as int,
            ) =~= Seq::<int>::empty());
        }
        assert(body.filter(ranked_below(n)) =~= Seq::<Part>::empty());
        assert(body.filter(ranked_below(n - 1)) =~= Seq::<Part>::empty());
        assert(body.filter(ranked(n - 1)) =~= Seq::<Part>::empty());
    }
}

proof fn lemma_filter_all(body: Seq<Part>)
    ensures
        body.filter(ranked_below(8)) == body,
    decreases body.len(),
{
    reveal(Seq::filter);
    if body.len() > 0 {
        lemma_filter_all(body.drop_last());
        assert(body.drop_last().push(body.last()) =~= body);
    } else {
        assert(body.filter(ranked_below(8)) =~= body);
    }
}

proof fn lemma_seedling_sound()
    ensures
        sound(seedling()),
{
    assert(Seq::new(
        seedling().body.len(),
        |i: int| cost_of(seedling().body[i]) as int,
    ) =~= Seq::<int>::empty());
}

/// A drawn body keeps to its budget and to the size of a body.
pub proof fn drawn_body_keeps_its_budget(s: u64, energy: u32)
    ensures
        body_cost(drawn_body(s, energy)) <= energy,
        drawn_body(s, energy).len() <= MAX_PARTS,
{
    lemma_seedling_sound();
    let g = full_grown(drawn_weights(s), energy, seedling());
    lemma_full_grown(drawn_weights(s), energy, seedling());
    lemma_order_cost(g.body, 8);
    lemma_filter_all(g.body);
    lemma_armed(in_loss_order(g.body, 8), energy);
}

proof fn lemma_cost_is_positive(body: Seq<Part>)
    ensures
        body_cost(body) >= 0,
        body.len() == 0 ==> body_cost(body) == 0,
    decreases body.len(),
{
    if body.len() == 0 {
        assert(Seq::new(body.len(), |i: int| cost_of(body[i]) as int) =~= Seq::<int>::empty());
    } else {
        let d = body.drop_last();
        lemma_cost_is_positive(d);
        lemma_cost_one(body.last());
        lemma_cost_concat(d, seq![body.last()]);
        assert(d + seq![body.last()] =~= body);
    }
}

proof fn lemma_cost_one(p: Part)
    ensures
        body_cost(seq![p]) == cost_of(p),
{
    let c = Seq::new(1, |i: int| cost_of(seq![p][i]) as int);
    assert(c =~= Seq::new(seq![p].len(), |i: int| cost_of(seq![p][i]) as int));
    reveal_with_fuel(total, 2);
    assert(c.drop_last() =~= Seq::<int>::empty());
}

proof fn lemma_lightened(body: Seq<Part>, energy: u32)
    requires
        cost_of(Part::Attack) <= energy,
    ensures
        body_cost(lightened(body, energy)) + cost_of(Part::Attack) <= energy,
        lightened(body, energy).len() < MAX_PARTS,
    decreases body.len(),
{
    lemma_cost_is_positive(body);
    if !(body.len() == 0 || (body_cost(body) + cost_of(Part::Attack) <= energy && body.len()
        < MAX_PARTS)) {
        lemma_lightened(body.drop_first(), energy);
    }
}

/// Arming keeps a body within its budget and size, and makes it of use.
proof fn lemma_armed(body: Seq<Part>, energy: u32)
    requires
        body_cost(body) <= energy,
        body.len() <= MAX_PARTS,
    ensures
        body_cost(armed(body, energy)) <= energy,
        armed(body, energy).len() <= MAX_PARTS,
        cost_of(Part::Attack) <= energy ==> serves(armed(body, energy)),
{
    if !serves(body) && cost_of(Part::Attack) <= energy {
        let light = lightened(body, energy);
        let more = light.push(Part::Attack);
        lemma_lightened(body, energy);
        lemma_cost_one(Part::Attack);
        lemma_cost_concat(light, seq![Part::Attack]);
        assert(more =~= light + seq![Part::Attack]);
        lemma_order_cost(more, 8);
        lemma_filter_all(more);
        assert(more[light.len() as int] == Part::Attack);
        assert(more.contains(Part::Attack));
        let r = in_loss_order(more, 8);
        assert(loss_rank(Part::Attack) < 8);
        assert(r.contains(Part::Attack));
        let k = choose|k: int| 0 <= k < r.len() && r[k] == Part::Attack;
        assert(is_of_use(r[k]));
    }
}

/// A body that can be paid for is never inert: from the price of one attack on, it holds
/// a part that fights, heals or dismantles.
pub proof fn drawn_body_is_of_use(s: u64, energy: u32)
    requires
        energy >= 80,
    ensures
        drawn_body(s, energy).contains(Part::Attack) || drawn_body(s, energy).contains(
            Part::RangedAttack,
        ) || drawn_body(s, energy).contains(Part::Heal) || drawn_body(s, energy).contains(
            Part::Work,
        ),
{
    lemma_seedling_sound();
    let g = full_grown(drawn_weights(s), energy, seedling());
    lemma_full_grown(drawn_weights(s), energy, seedling());
    lemma_order_cost(g.body, 8);
    lemma_filter_all(g.body);
    lemma_armed(in_loss_order(g.body, 8), energy);
    let r = drawn_body(s, energy);
    let k = choose|k: int| 0 <= k < r.len() && is_of_use(#[trigger] r[k]);
    assert(r.contains(r[k]));
}

/// No member of a drawn squad is inert.
pub proof fn drawn_squad_is_of_use(s: u64, energy: u32, n: nat, i: int)
    requires
        energy >= 80,
        0 <= i < n,
    ensures
        drawn_squad(s, energy, n).0.len() == n,
        serves(drawn_squad(s, energy, n).0[i]),
    decreases n,
{
    lemma_squad_size(s, energy, n);
    lemma_squad_size(s, energy, (n - 1) as nat);
    if i == n - 1 {
        let at = drawn_squad(s, energy, (n - 1) as nat).1;
        drawn_body_is_of_use(at, energy);
        let r = drawn_body(at, energy);
        let p = if r.contains(Part::Attack) {
            Part::Attack
        } else if r.contains(Part::RangedAttack) {
            Part::RangedAttack
        } else if r.contains(Part::Heal) {
            Part::Heal
        } else {
            Part::Work
        };
        let k = choose|k: int| 0 <= k < r.len() && r[k] == p;
        assert(is_of_use(r[k]));
    } else {
        drawn_squad_is_of_use(s, energy, (n - 1) as nat, i);
    }
}

proof fn lemma_squad_size(s: u64, energy: u32, n: nat)
    ensures
        drawn_squad(s, energy, n).0.len() == n,
    decreases n,
{
    if n > 0 {
        lemma_squad_size(s, energy, (n - 1) as nat);
    }
}

/// Every part with a weight has been added.
pub open spec fn covers(w: Seq<u32>, g: Growth) -> bool {
    forall|i: int| 0 <= i < 6 && w[i] > 0 ==> #[trigger] g.counts[i] > 0
}

pub open spec fn first_costs(counts: Seq<int>) -> int {
    counts[0] * 10 + counts[1] * 80 + counts[2] * 150 + counts[3] * 250 + counts[4] * 100
        + counts[5] * 50
}

proof fn lemma_behind_is_missing(w: Seq<u32>, energy: u32, g: Growth, n: int, j: int)
    requires
        0 <= j < n <= 6,
        sound(g),
        addable(w, energy, g, j),
        g.counts[j] == 0,
    ensures
        most_behind(w, energy, g, n) matches Some(i) && g.counts[i] == 0,
    decreases n,
{
    lemma_most_behind(w, energy, g, n);
    lemma_most_behind(w, energy, g, n - 1);
    if j < n - 1 {
        lemma_behind_is_missing(w, energy, g, n - 1, j);
        let b = most_behind(w, energy, g, n - 1)->0;
        assert(g.counts[b] * w[n - 1] == 0) by (nonlinear_arith)
            requires
                g.counts[b] == 0,
        ;
        assert(g.counts[n - 1] * w[b] >= 0) by (nonlinear_arith)
            requires
                g.counts[n - 1] >= 0,
                w[b] >= 0,
        ;
    } else {
        if let Some(b) = most_behind(w, energy, g, n - 1) {
            if g.counts[b] > 0 {
                assert(g.counts[j] * w[b] == 0) by (nonlinear_arith)
                    requires
                        g.counts[j] == 0,
                ;
                assert(g.counts[b] * w[j] > 0) by (nonlinear_arith)
                    requires
                        g.counts[b] > 0,
                        w[j] > 0,
                ;
            }
        }
    }
}

pub open spec fn first_tally(counts: Seq<int>) -> int {
    counts[0] + counts[1] + counts[2] + counts[3] + counts[4] + counts[5]
}

/// Each part at most once, and the books to match.
pub open spec fn starting(g: Growth) -> bool {
    &&& g.spent == first_costs(g.counts)
    &&& g.body.len() == first_tally(g.counts)
    &&& forall|i: int| 0 <= i < 6 ==> 0 <= #[trigger] g.counts[i] <= 1
}

proof fn lemma_first(c: Seq<int>, i: int)
    requires
        c.len() == 6,
        0 <= i < 6,
        c[i] == 0,
        forall|k: int| 0 <= k < 6 ==> 0 <= #[trigger] c[k] <= 1,
    ensures
        first_costs(c.update(i, 1)) == first_costs(c) + cost_of(drawn_part(i)),
        first_costs(c.update(i, 1)) <= 640,
        first_tally(c.update(i, 1)) == first_tally(c) + 1,
        first_tally(c) < 6,
{
    assert(0 <= c[0] <= 1 && 0 <= c[1] <= 1 && 0 <= c[2] <= 1 && 0 <= c[3] <= 1 && 0 <= c[4] <= 1
        && 0 <= c[5] <= 1);
    let u = c.update(i, 1);
    if i == 0 {
        assert(u[0] == 1 && u[1] == c[1] && u[2] == c[2] && u[3] == c[3] && u[4] == c[4] && u[5]
            == c[5]);
    } else if i == 1 {
        assert(u[0] == c[0] && u[1] == 1 && u[2] == c[2] && u[3] == c[3] && u[4] == c[4] && u[5]
            == c[5]);
    } else if i == 2 {
        assert(u[0] == c[0] && u[1] == c[1] && u[2] == 1 && u[3] == c[3] && u[4] == c[4] && u[5]
            == c[5]);
    } else if i == 3 {
        assert(u[0] == c[0] && u[1] == c[1] && u[2] == c[2] && u[3] == 1 && u[4] == c[4] && u[5]
            == c[5]);
    } else if i == 4 {
        assert(u[0] == c[0] && u[1] == c[1] && u[2] == c[2] && u[3] == c[3] && u[4] == 1 && u[5]
            == c[5]);
    } else {
        assert(u[0] == c[0] && u[1] == c[1] && u[2] == c[2] && u[3] == c[3] && u[4] == c[4] && u[5]
            == 1);
    }
}

proof fn lemma_start_grows(w: Seq<u32>, energy: u32, g: Growth)
    requires
        w.len() == 6,
        energy >= 640,
        sound(g),
        starting(g),
        !covers(w, g),
    ensures
        most_behind(w, energy, g, 6) matches Some(i) && sound(grown(g, i)) && starting(grown(g, i))
            && grown(g, i).spent <= energy,
        g.body.len() < MAX_PARTS,
{
    let j = choose|j: int| 0 <= j < 6 && w[j] > 0 && !(#[trigger] g.counts[j] > 0);
    assert(0 <= g.counts[j] <= 1);
    lemma_first(g.counts, j);
    assert(addable(w, energy, g, j));
    lemma_behind_is_missing(w, energy, g, 6, j);
    lemma_most_behind(w, energy, g, 6);
    let i = most_behind(w, energy, g, 6)->0;
    lemma_first(g.counts, i);
    lemma_grown_sound(w, energy, g, i);
    let h = grown(g, i);
    assert(h.counts == g.counts.update(i, 1));
    assert forall|k: int| 0 <= k < 6 implies 0 <= #[trigger] h.counts[k] <= 1 by {
        assert(0 <= g.counts[k] <= 1);
    }
}

proof fn lemma_grows_to_cover(w: Seq<u32>, energy: u32, g: Growth)
    requires
        w.len() == 6,
        energy >= 640,
        sound(g),
        g.spent <= energy,
        covers(w, g) || starting(g),
    ensures
        covers(w, full_grown(w, energy, g)),
    decreases MAX_PARTS - g.body.len(),
{
    if covers(w, g) {
        lemma_full_grown(w, energy, g);
        let f = full_grown(w, energy, g);
        assert forall|i: int| 0 <= i < 6 && w[i] > 0 implies #[trigger] f.counts[i] > 0 by {
            assert(g.counts[i] > 0);
        }
    } else {
        lemma_start_grows(w, energy, g);
        let i = most_behind(w, energy, g, 6)->0;
        lemma_grows_to_cover(w, energy, grown(g, i));
    }
}

/// With energy for one part of each, every drawn body can move.
pub proof fn drawn_body_can_move(s: u64, energy: u32)
    requires
        energy >= 640,
    ensures
        drawn_body(s, energy).contains(Part::Move),
{
    let w = drawn_weights(s);
    lemma_seedling_sound();
    lemma_full_grown(w, energy, seedling());
    lemma_grows_to_cover(w, energy, seedling());
    let g = full_grown(w, energy, seedling());
    lemma_order_cost(g.body, 8);
    let s5 = next_state(next_state(next_state(next_state(next_state(s)))));
    draw_is_in_bounds(s5, 2, 5);
    assert(w[5] > 0);
    assert(g.counts[5] > 0);
    assert(g.body.contains(drawn_part(5)));
    assert(w[1] > 0 || w[2] > 0 || w[3] > 0 || w[4] > 0);
    let k: int = if w[1] > 0 {
        1
    } else if w[2] > 0 {
        2
    } else if w[3] > 0 {
        3
    } else {
        4
    };
    assert(g.counts[k] > 0);
    assert(g.body.contains(drawn_part(k)));
    let sorted = in_loss_order(g.body, 8);
    assert(sorted.contains(drawn_part(k)));
    let j = choose|j: int| 0 <= j < sorted.len() && sorted[j] == drawn_part(k);
    assert(is_of_use(sorted[j]));
    assert(serves(sorted));
}

fn part_at(i: usize) -> (p: Part)
    requires
        i < 6,
    ensures
        p == drawn_part(i as int),
{
    if i == 0 {
        Part::Tough
    } else if i == 1 {
        Part::Attack
    } else if i == 2 {
        Part::RangedAttack
    } else if i == 3 {
        Part::Heal
    } else if i == 4 {
        Part::Work
    } else {
        Part::Move
    }
}

fn draw_weights(rng: &mut Rng) -> (w: Vec<u32>)
    ensures
        w@ == drawn_weights(old(rng)@),
        final(rng)@ == after_body(old(rng)@),
        forall|i: int| 0 <= i < 6 ==> #[trigger] w@[i] <= 5,
{
    let tough: u32 = rng.range(0, 3);
    let attack: u32 = rng.range(0, 5);
    let ranged: u32 = rng.range(0, 5);
    let heal: u32 = rng.range(0, 4);
    let work: u32 = rng.range(0, 2);
    let mobile: u32 = rng.range(2, 5);
    let armed: u32 = if attack + ranged + heal + work == 0 {
        2
    } else {
        attack
    };
    let mut w: Vec<u32> = Vec::new();
    w.push(tough);
    w.push(armed);
    w.push(ranged);
    w.push(heal);
    w.push(work);
    w.push(mobile);
    assert(w@ =~= drawn_weights(old(rng)@));
    w
}

pub open spec fn as_counts(c: Seq<u32>) -> Seq<int> {
    Seq::new(c.len(), |i: int| c[i] as int)
}

fn find_most_behind(w: &Vec<u32>, energy: u32, counts: &Vec<u32>, spent: u32, len: usize, Ghost(
    g,
): Ghost<Growth>) -> (r: Option<usize>)
    requires
        w@.len() == 6,
        counts@.len() == 6,
        forall|i: int| 0 <= i < 6 ==> #[trigger] w@[i] <= 5,
        forall|i: int| 0 <= i < 6 ==> #[trigger] counts@[i] <= 50,
        spent <= energy,
        g.counts == as_counts(counts@),
        g.spent == spent,
        g.body.len() == len,
    ensures
        (match r {
            Some(i) => Some(i as int),
            None => None,
        }) == most_behind(w@, energy, g, 6),
        r matches Some(i) ==> i < 6,
{
    let mut best: Option<usize> = None;
    let mut i: usize = 0;
    while i < 6
        invariant
            i <= 6,
            w@.len() == 6,
            counts@.len() == 6,
            forall|k: int| 0 <= k < 6 ==> #[trigger] w@[k] <= 5,
            forall|k: int| 0 <= k < 6 ==> #[trigger] counts@[k] <= 50,
            spent <= energy,
            g.counts == as_counts(counts@),
            g.spent == spent,
            g.body.len() == len,
            (match best {
                Some(b) => Some(b as int),
                None => None,
            }) == most_behind(w@, energy, g, i as int),
            best matches Some(b) ==> b < i,
        decreases 6 - i,
    {
        let cost: u32 = part_cost(part_at(i));
        if w[i] > 0 && len < MAX_PARTS && cost <= energy - spent {
            match best {
                None => {
                    best = Some(i);
                },
                Some(b) => {
                    let ci: u32 = counts[i];
                    let cb: u32 = counts[b];
                    let wi: u32 = w[i];
                    let wb: u32 = w[b];
                    assert(0 <= ci * wb <= 250 && 0 <= cb * wi <= 250) by (nonlinear_arith)
                        requires
                            ci <= 50,
                            cb <= 50,
                            wi <= 5,
                            wb <= 5,
                    ;
                    if ci * wb < cb * wi {
                        best = Some(i);
                    }
                },
            }
        }
        i = i + 1;
    }
    best
}

fn sort_for_loss(body: &Vec<Part>) -> (r: Vec<Part>)
    ensures
        r@ == in_loss_order(body@, 8),
{
    let mut out: Vec<Part> = Vec::new();
    let mut k: u8 = 0;
    while k < 8
        invariant
            k <= 8,
            out@ == in_loss_order(body@, k as int),
        decreases 8 - k,
    {
        let ghost before = out@;
        let mut i: usize = 0;
        proof {
            reveal(Seq::filter);
            assert(body@.take(0) =~= Seq::<Part>::empty());
            assert(before + body@.take(0).filter(ranked(k as int)) =~= before);
        }
        while i < body.len()
            invariant
                i <= body@.len(),
                out@ == before + body@.take(i as int).filter(ranked(k as int)),
            decreases body.len() - i,
        {
            proof {
                lemma_filter_take(body@, ranked(k as int), i as int);
            }
            if degrade_order(body[i]) == k {
                out.push(body[i]);
            }
            i = i + 1;
            assert(out@ =~= before + body@.take(i as int).filter(ranked(k as int)));
        }
        assert(body@.take(i as int) =~= body@);
        k = k + 1;
    }
    out
}

/// A random body within the budget, its parts in the order of loss.
pub fn random_body(rng: &mut Rng, energy: u32) -> (r: Vec<Part>)
    ensures
        r@ == drawn_body(old(rng)@, energy),
        final(rng)@ == after_body(old(rng)@),
{
    let w: Vec<u32> = draw_weights(rng);
    let mut body: Vec<Part> = Vec::new();
    let mut counts: Vec<u32> = vec![0, 0, 0, 0, 0, 0];
    let mut spent: u32 = 0;
    let ghost mut g = seedling();
    proof {
        lemma_seedling_sound();
        assert(as_counts(counts@) =~= g.counts);
    }
    let ghost goal = full_grown(w@, energy, g);
    while body.len() < MAX_PARTS
        invariant_except_break
            w@.len() == 6,
            forall|k: int| 0 <= k < 6 ==> #[trigger] w@[k] <= 5,
            counts@.len() == 6,
            sound(g),
            g.body == body@,
            g.counts == as_counts(counts@),
            g.spent == spent,
            spent <= energy,
            body@.len() <= MAX_PARTS,
            full_grown(w@, energy, g) == goal,
        ensures
            body@ == goal.body,
        decreases MAX_PARTS - body@.len(),
    {
        assert forall|k: int| 0 <= k < 6 implies #[trigger] counts@[k] <= 50 by {
            assert(g.counts[k] <= g.body.len());
        }
        let found: Option<usize> = find_most_behind(
            &w,
            energy,
            &counts,
            spent,
            body.len(),
            Ghost(g),
        );
        match found {
            Some(i) => {
                let p: Part = part_at(i);
                proof {
                    lemma_most_behind(w@, energy, g, 6);
                    lemma_grown_sound(w@, energy, g, i as int);
                    assert(g.counts[i as int] <= g.body.len());
                    g = grown(g, i as int);
                }
                body.push(p);
                counts.set(i, counts[i] + 1);
                spent = spent + part_cost(p);
                assert(as_counts(counts@) =~= g.counts);
            },
            None => {
                break;
            },
        }
    }
    let sorted: Vec<Part> = sort_for_loss(&body);
    proof {
        lemma_full_grown(w@, energy, seedling());
        lemma_order_cost(goal.body, 8);
        lemma_filter_all(goal.body);
    }
    arm(sorted, energy)
}

/// Trades the first parts of an inert body for an attack.
fn arm(body: Vec<Part>, energy: u32) -> (r: Vec<Part>)
    requires
        body_cost(body@) <= energy,
        body@.len() <= MAX_PARTS,
    ensures
        r@ == armed(body@, energy),
{
    let mut cost: u32 = 0;
    let mut i: usize = 0;
    proof {
        lemma_cost_is_positive(body@.take(0));
    }
    while i < body.len()
        invariant
            i <= body@.len(),
            cost == body_cost(body@.take(i as int)),
            body_cost(body@) <= energy,
            forall|k: int| 0 <= k < i ==> !is_of_use(#[trigger] body@[k]),
        decreases body.len() - i,
    {
        let p: Part = body[i];
        let of_use: bool = match p {
            Part::Attack | Part::RangedAttack | Part::Heal | Part::Work => true,
            _ => false,
        };
        if of_use {
            assert(is_of_use(body@[i as int]));
            return body;
        }
        proof {
            let t = body@.take(i as int);
            lemma_cost_one(p);
            lemma_cost_concat(t, seq![p]);
            assert(body@.take(i + 1) =~= t + seq![p]);
            lemma_cost_concat(body@.take(i + 1), body@.skip(i + 1));
            assert(body@.take(i + 1) + body@.skip(i + 1) =~= body@);
            lemma_cost_is_positive(body@.skip(i + 1));
        }
        cost = cost + part_cost(p);
        i = i + 1;
    }
    assert(body@.take(i as int) =~= body@);
    let price: u32 = part_cost(Part::Attack);
    if energy < price {
        return body;
    }
    let mut from: usize = 0;
    assert(body@.skip(0) =~= body@);
    while from < body.len() && (cost > energy - price || body.len() - from >= MAX_PARTS)
        invariant
            from <= body@.len(),
            price == cost_of(Part::Attack),
            price <= energy,
            cost == body_cost(body@.skip(from as int)),
            lightened(body@.skip(from as int), energy) == lightened(body@, energy),
        decreases body.len() - from,
    {
        let p: Part = body[from];
        proof {
            let s = body@.skip(from as int);
            lemma_cost_one(p);
            lemma_cost_concat(seq![p], body@.skip(from + 1));
            assert(s =~= seq![p] + body@.skip(from + 1));
            assert(s.drop_first() =~= body@.skip(from + 1));
            lemma_cost_is_positive(body@.skip(from + 1));
        }
        cost = cost - part_cost(p);
        from = from + 1;
    }
    let ghost rest = body@.skip(from as int);
    assert(rest == lightened(body@, energy));
    let mut more: Vec<Part> = Vec::new();
    let mut k: usize = from;
    while k < body.len()
        invariant
            from <= k <= body@.len(),
            rest == body@.skip(from as int),
            more@ == rest.take(k - from),
        decreases body.len() - k,
    {
        more.push(body[k]);
        k = k + 1;
        assert(more@ =~= rest.take(k - from));
    }
    more.push(Part::Attack);
    assert(more@ =~= rest.push(Part::Attack));
    sort_for_loss(&more)
}

pub open spec fn bodies_of(v: Seq<Vec<Part>>) -> Seq<Seq<Part>> {
    Seq::new(v.len(), |i: int| v[i]@)
}

/// A squad of random bodies.
pub fn random_squad(rng: &mut Rng, energy: u32, n: u8) -> (r: Vec<Vec<Part>>)
    ensures
        (bodies_of(r@), final(rng)@) == drawn_squad(old(rng)@, energy, n as nat),
        r@.len() == n,
{
    let mut out: Vec<Vec<Part>> = Vec::new();
    let ghost s = rng@;
    let mut i: u8 = 0;
    assert(bodies_of(out@) =~= Seq::<Seq<Part>>::empty());
    while i < n
        invariant
            i <= n,
            out@.len() == i,
            (bodies_of(out@), rng@) == drawn_squad(s, energy, i as nat),
        decreases n - i,
    {
        let ghost before = bodies_of(out@);
        let b: Vec<Part> = random_body(rng, energy);
        out.push(b);
        i = i + 1;
        assert(bodies_of(out@) =~= before.push(b@));
    }
    out
}

/// A squad of random bodies from a seed alone.
pub fn sample_squad(seed: u32, energy: u32, n: u8) -> (r: Vec<Vec<Part>>)
    ensures
        bodies_of(r@) == drawn_squad(seed_state(seed), energy, n as nat).0,
        r@.len() == n,
{
    let mut rng = Rng::seeded(seed);
    random_squad(&mut rng, energy, n)
}

// ── What a body is drawn by ────────────────────────────────────────────────

/// What parts cost: the dearer by what they do.
pub proof fn parts_have_their_prices()
    ensures
        cost_of(Part::Tough) == 10,
        cost_of(Part::Move) == 5 * cost_of(Part::Tough) && cost_of(Part::Carry) == cost_of(
            Part::Move,
        ),
        cost_of(Part::Attack) == 8 * cost_of(Part::Tough),
        cost_of(Part::Work) == 2 * cost_of(Part::Move),
        cost_of(Part::RangedAttack) == 3 * cost_of(Part::Move),
        cost_of(Part::Heal) == 5 * cost_of(Part::Move),
        cost_of(Part::Claim) == 12 * cost_of(Part::Move),
{
}

/// Parts are lost in one order: toughness, then work and the weapons, then cargo, healing and
/// movement, and claims last; no two kinds at once.
pub proof fn parts_are_lost_one_kind_after_another(a: Part, b: Part)
    ensures
        loss_rank(a) == loss_rank(b) <==> a == b,
        0 <= loss_rank(a) < 8,
        loss_rank(Part::Tough) < loss_rank(Part::Work) < loss_rank(Part::Attack),
        loss_rank(Part::Attack) < loss_rank(Part::RangedAttack) < loss_rank(Part::Carry),
        loss_rank(Part::Carry) < loss_rank(Part::Heal) < loss_rank(Part::Move),
        loss_rank(Part::Move) < loss_rank(Part::Claim),
{
}

/// A body in the order of loss has its parts by rank: nothing stands in front of a part that
/// is lost earlier.
pub proof fn a_body_stands_in_the_order_of_loss(body: Seq<Part>, n: int, i: int, j: int)
    requires
        0 <= n <= 8,
        0 <= i <= j < in_loss_order(body, n).len(),
    ensures
        loss_rank(in_loss_order(body, n)[i]) <= loss_rank(in_loss_order(body, n)[j]) < n,
        in_loss_order(body, n)[j] is Tough ==> in_loss_order(body, n)[i] is Tough,
        in_loss_order(body, n)[i] is Move ==> in_loss_order(body, n)[j] is Move || in_loss_order(
            body,
            n,
        )[j] is Claim,
        in_loss_order(body, n)[i] is Heal ==> !(in_loss_order(body, n)[j] is Attack
            || in_loss_order(body, n)[j] is RangedAttack),
    decreases n,
{
    if n > 0 {
        let a = in_loss_order(body, n - 1);
        let b = body.filter(ranked(n - 1));
        if j < a.len() {
            a_body_stands_in_the_order_of_loss(body, n - 1, i, j);
        } else {
            body.lemma_filter_pred(ranked(n - 1), j - a.len());
            assert(b[j - a.len()] == in_loss_order(body, n)[j]);
            if i < a.len() {
                a_body_stands_in_the_order_of_loss(body, n - 1, i, i);
            } else {
                body.lemma_filter_pred(ranked(n - 1), i - a.len());
                assert(b[i - a.len()] == in_loss_order(body, n)[i]);
            }
        }
    }
}

/// Sorting for loss keeps a body's parts: as many, at the same price, and each that it had.
pub proof fn sorting_keeps_the_parts(body: Seq<Part>, p: Part)
    ensures
        in_loss_order(body, 8).len() == body.len(),
        body_cost(in_loss_order(body, 8)) == body_cost(body),
        in_loss_order(body, 8).contains(p) <==> body.contains(p),
{
    lemma_order_cost(body, 8);
    lemma_filter_all(body);
}

/// The six parts that are drawn, each one once.
pub proof fn six_parts_are_drawn(i: int, j: int)
    ensures
        0 <= i < j < 6 ==> drawn_part(i) != drawn_part(j),
        drawn_part(0) is Tough && drawn_part(1) is Attack && drawn_part(2) is RangedAttack,
        drawn_part(3) is Heal && drawn_part(4) is Work && drawn_part(5) is Move,
{
}

/// A body's weights are six draws in a row: toughness to three, the two attacks to five,
/// healing to four, work to two, movement from two to five. One without any use of its own
/// gets an attack of two, and only such a one is changed.
pub proof fn weights_are_six_draws(s: Seq<u64>)
    requires
        s.len() == 7,
        forall|i: int| 0 < i < 7 ==> #[trigger] s[i] == next_state(s[i - 1]),
    ensures
        ({
            let w = drawn_weights(s[0]);
            let (a, r, h, k) = (
                drawn_in(s[1], 0, 5),
                drawn_in(s[2], 0, 5),
                drawn_in(s[3], 0, 4),
                drawn_in(s[4], 0, 2),
            );
            &&& w.len() == 6
            &&& w[0] == drawn_in(s[0], 0, 3)
            &&& w[2] == r && w[3] == h && w[4] == k
            &&& w[5] == drawn_in(s[5], 2, 5)
            &&& 2 <= w[5] <= 5
            &&& a > 0 || r > 0 || h > 0 || k > 0 ==> w[1] == a
            &&& a == 0 && r == 0 && h == 0 && k == 0 ==> w[1] == 2
            &&& w[1] + w[2] + w[3] + w[4] >= 1
        }),
        after_body(s[0]) == s[6],
{
    assert(s[1] == next_state(s[0]));
    assert(s[2] == next_state(s[1]));
    assert(s[3] == next_state(s[2]));
    assert(s[4] == next_state(s[3]));
    assert(s[5] == next_state(s[4]));
    assert(s[6] == next_state(s[5]));
    draw_is_in_bounds(s[5], 2, 5);
    draw_is_in_bounds(s[1], 0, 5);
    draw_is_in_bounds(s[2], 0, 5);
    draw_is_in_bounds(s[3], 0, 4);
    draw_is_in_bounds(s[4], 0, 2);
}

/// A part can be added while it has a weight, the body has room below fifty, and the budget
/// holds its price.
pub proof fn a_part_is_added_while_it_fits(w: Seq<u32>, energy: u32, g: Growth, i: int)
    ensures
        addable(w, energy, g, i) <==> w[i] >= 1 && g.body.len() <= 49 && energy - g.spent
            >= cost_of(drawn_part(i)),
{
}

proof fn lemma_ratio(cn: int, wn: int, cb: int, wb: int, ci: int, wi: int)
    requires
        wb > 0,
        wn > 0,
        wi > 0,
        cn * wb < cb * wn,
        cb * wi <= ci * wb,
    ensures
        cn * wi <= ci * wn,
{
    assert((cn * wi) * wb < (cb * wi) * wn) by (nonlinear_arith)
        requires
            cn * wb < cb * wn,
            wi > 0,
    ;
    assert((cb * wi) * wn <= (ci * wn) * wb) by (nonlinear_arith)
        requires
            cb * wi <= ci * wb,
            wn > 0,
    ;
    assert(cn * wi <= ci * wn) by (nonlinear_arith)
        requires
            (cn * wi) * wb < (ci * wn) * wb,
            wb > 0,
    ;
}

/// The part that grows next can be added, and none that can is farther behind its weight; of
/// several as far behind it is the first.
pub proof fn the_part_most_behind_grows(
    w: Seq<u32>,
    energy: u32,
    g: Growth,
    n: int,
    b: int,
    i: int,
)
    requires
        0 <= i < n <= 6,
        most_behind(w, energy, g, n) == Some(b),
        addable(w, energy, g, i),
    ensures
        0 <= b < n,
        addable(w, energy, g, b),
        g.counts[b] * w[i] <= g.counts[i] * w[b],
        g.counts[b] * w[i] == g.counts[i] * w[b] ==> b <= i,
    decreases n,
{
    lemma_most_behind(w, energy, g, n);
    lemma_most_behind(w, energy, g, n - 1);
    match most_behind(w, energy, g, n - 1) {
        Some(c) => {
            if i < n - 1 {
                the_part_most_behind_grows(w, energy, g, n - 1, c, i);
                if b == n - 1 && c != b {
                    lemma_ratio(
                        g.counts[b],
                        w[b] as int,
                        g.counts[c],
                        w[c] as int,
                        g.counts[i],
                        w[i] as int,
                    );
                    if g.counts[b] * w[i] == g.counts[i] * w[b] {
                        let (x, y) = (g.counts[b], g.counts[i]);
                        let (p, q, r) = (w[b] as int, w[c] as int, w[i] as int);
                        let z = g.counts[c];
                        assert(false) by (nonlinear_arith)
                            requires
                                x * r == y * p,
                                x * q < z * p,
                                z * r <= y * q,
                                p > 0,
                                q > 0,
                                r > 0,
                        {
                            assert((x * q) * r < (z * p) * r);
                            assert((z * r) * p <= (y * q) * p);
                            assert((x * q) * r == (x * r) * q);
                            assert((y * q) * p == (y * p) * q);
                            assert((z * p) * r == (z * r) * p);
                        }
                    }
                }
            }
        },
        None => {
            if i < n - 1 {
                assert(!addable(w, energy, g, i));
            }
        },
    }
}

/// Growing adds the one part, at its price.
pub proof fn growing_adds_one_part(g: Growth, i: int, j: int)
    requires
        g.counts.len() == 6,
        0 <= i < 6,
        0 <= j < 6,
    ensures
        grown(g, i).body == g.body.push(drawn_part(i)),
        grown(g, i).spent == g.spent + cost_of(drawn_part(i)),
        grown(g, i).counts[i] == g.counts[i] + 1,
        j != i ==> grown(g, i).counts[j] == g.counts[j],
{
}

/// A body grows until nothing can be added: whatever has a weight costs more than is left, or
/// the body is full.
pub proof fn a_body_grows_as_far_as_it_goes(w: Seq<u32>, energy: u32, g: Growth, i: int)
    requires
        0 <= i < 6,
        g.body.len() <= 50,
    ensures
        ({
            let f = full_grown(w, energy, g);
            w[i] == 0 || f.body.len() >= 50 || f.spent + cost_of(drawn_part(i)) > energy
        }),
    decreases MAX_PARTS - g.body.len(),
{
    lemma_most_behind(w, energy, g, 6);
    match most_behind(w, energy, g, 6) {
        Some(k) if g.body.len() < MAX_PARTS => {
            a_body_grows_as_far_as_it_goes(w, energy, grown(g, k), i);
        },
        Some(_) => {},
        None => {
            assert(!addable(w, energy, g, i));
        },
    }
}

/// A body that is of use stays as it is, and so does one that cannot pay for an attack; any
/// other gets an attack, and drops no more than it must from its front.
pub proof fn an_inert_body_is_armed(body: Seq<Part>, energy: u32)
    requires
        body_cost(body) <= energy,
        body.len() <= MAX_PARTS,
    ensures
        serves(body) ==> armed(body, energy) == body,
        energy < 80 ==> armed(body, energy) == body,
        !serves(body) && energy >= 80 ==> armed(body, energy).contains(Part::Attack),
        !serves(body) && body_cost(body) + 80 <= energy && body.len() < 50 ==> armed(
            body,
            energy,
        ).len() == body.len() + 1,
{
    lemma_cost_is_positive(body);
    if !serves(body) && energy >= 80 {
        let light = lightened(body, energy);
        let more = light.push(Part::Attack);
        assert(more[light.len() as int] == Part::Attack);
        assert(more.contains(Part::Attack));
        sorting_keeps_the_parts(more, Part::Attack);
        if body_cost(body) + 80 <= energy && body.len() < 50 {
            assert(cost_of(Part::Attack) == 80);
            assert(light == body);
        }
    }
}

/// Parts are dropped one by one from the front, and none once the attack fits in.
pub proof fn parts_are_dropped_while_they_must(body: Seq<Part>, energy: u32)
    requires
        body.len() > 0,
    ensures
        body_cost(body) + 80 <= energy && body.len() < 50 ==> lightened(body, energy) == body,
        body_cost(body) + 80 > energy || body.len() >= 50 ==> lightened(body, energy) == lightened(
            body.drop_first(),
            energy,
        ),
{
}

/// One more part adds its price to the body's.
pub proof fn one_more_part_adds_its_price(body: Seq<Part>, p: Part)
    ensures
        body_cost(body.push(p)) == body_cost(body) + cost_of(p),
        body_cost(seq![]) == 0,
{
    lemma_cost_one(p);
    lemma_cost_concat(body, seq![p]);
    assert(body.push(p) =~= body + seq![p]);
    lemma_cost_is_positive(seq![]);
}

/// A squad's bodies are drawn one after another, each from where the last one left off.
pub proof fn a_squad_is_drawn_in_turn(s: u64, energy: u32, n: nat)
    ensures
        drawn_squad(s, energy, 0).0.len() == 0 && drawn_squad(s, energy, 0).1 == s,
        drawn_squad(s, energy, n + 1).0 == drawn_squad(s, energy, n).0.push(
            drawn_body(drawn_squad(s, energy, n).1, energy),
        ),
        drawn_squad(s, energy, n + 1).1 == after_body(drawn_squad(s, energy, n).1),
{
}

} // verus!
