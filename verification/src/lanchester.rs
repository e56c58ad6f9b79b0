//! Does the predicted favourite win? Random matchups, scored against what a force
//! model predicts of them.

use crate::profile::{fighters, fighting, force_hits, lemma_total_bound, total};
use crate::rng::{drawn, drawn_in, next_state, seed_state, Rng};
use crate::roster::{bodies_of, drawn_squad, random_squad, Part};
use crate::text::{
    decimal, plus_decimal, push_decimal, push_plus, push_right, push_signed, right_set,
    signed_decimal,
};
use crate::position::WPos;
use crate::world::{pos_in, tile_in, CombatWorld, PlayerId, SimCreep};
use vstd::prelude::*;
use vstd::string::*;

verus! {

/// A predicted favourite is one past this balance.
pub const CLEAR_BALANCE: i64 = 150;

/// An outcome is decisive past this margin of hits.
pub const DECISIVE_HP: i64 = 400;

/// What a force model predicts for the first side.
#[derive(Clone, Copy, Debug, PartialEq, Eq, Structural)]
pub struct EnginePrediction {
    pub balance: i64,
    pub win_permille: i64,
    pub unwinnable: bool,
}

/// A matchup: the prediction for the first side, and what happened.
#[derive(Clone, Copy, Debug, PartialEq, Eq, Structural)]
pub struct Matchup {
    pub seed: u64,
    pub predicted_balance: i64,
    pub predicted_win_permille: i64,
    pub predicted_unwinnable: bool,
    /// The first side's hits left over the second's.
    pub actual_net_hp: i64,
    pub agree: bool,
}

/// A creep as it is put down.
#[derive(Clone, Copy, Debug, PartialEq, Eq, Structural)]
pub struct Placed {
    pub id: u32,
    pub owner: PlayerId,
    pub pos: WPos,
}

/// The summary over all matchups.
#[derive(Clone, Debug)]
pub struct ValidationReport {
    pub trials: usize,
    /// Matchups with a clear favourite and a clear winner.
    pub decisive: usize,
    /// Those of them that the favourite won.
    pub correct: usize,
    /// The others: a clear favourite that lost.
    pub outliers: Vec<Matchup>,
}

pub open spec fn sign(i: int) -> int {
    if i > 0 {
        1
    } else if i < 0 {
        -1
    } else {
        0
    }
}

pub open spec fn clear(i: int, bound: int) -> bool {
    i >= bound || -i >= bound
}

pub open spec fn matched(seed: u64, p: EnginePrediction, net: i64) -> Matchup {
    Matchup {
        seed,
        predicted_balance: p.balance,
        predicted_win_permille: p.win_permille,
        predicted_unwinnable: p.unwinnable,
        actual_net_hp: net,
        agree: sign(p.balance as int) == sign(net as int) || (!clear(
            p.balance as int,
            CLEAR_BALANCE as int,
        ) && !clear(net as int, DECISIVE_HP as int)),
    }
}

/// There is a clear favourite and a clear winner.
pub open spec fn is_decisive(m: Matchup) -> bool {
    clear(m.predicted_balance as int, CLEAR_BALANCE as int) && clear(
        m.actual_net_hp as int,
        DECISIVE_HP as int,
    )
}

pub open spec fn is_correct(m: Matchup) -> bool {
    sign(m.predicted_balance as int) == sign(m.actual_net_hp as int)
}

/// The state of a summary.
#[verifier::ext_equal]
pub struct TallyView {
    pub trials: nat,
    pub decisive: nat,
    pub correct: nat,
    pub outliers: Seq<Matchup>,
}

impl View for ValidationReport {
    type V = TallyView;

    open spec fn view(&self) -> TallyView {
        TallyView {
            trials: self.trials as nat,
            decisive: self.decisive as nat,
            correct: self.correct as nat,
            outliers: self.outliers@,
        }
    }
}

impl TallyView {
    /// Each decisive matchup is correct or an outlier.
    pub open spec fn wf(self) -> bool {
        &&& self.decisive <= self.trials
        &&& self.correct + self.outliers.len() == self.decisive
    }

    pub open spec fn counted(self, m: Matchup) -> TallyView {
        let t = TallyView { trials: self.trials + 1, ..self };
        if !is_decisive(m) {
            t
        } else if is_correct(m) {
            TallyView { decisive: t.decisive + 1, correct: t.correct + 1, ..t }
        } else {
            TallyView { decisive: t.decisive + 1, outliers: t.outliers.push(m), ..t }
        }
    }
}

/// Every counted matchup that is decisive goes to exactly one side of the tally, and
/// an outlier is one whose prediction did not agree with its outcome.
pub proof fn outliers_are_wrong_predictions(t: TallyView, seed: u64, p: EnginePrediction, net: i64)
    requires
        t.wf(),
    ensures
        t.counted(matched(seed, p, net)).wf(),
        t.counted(matched(seed, p, net)).outliers.len() > t.outliers.len() ==> !matched(
            seed,
            p,
            net,
        ).agree,
{
}

fn sign_of(i: i64) -> (r: i8)
    ensures
        r == sign(i as int),
{
    if i > 0 {
        1
    } else if i < 0 {
        -1
    } else {
        0
    }
}

fn is_clear(i: i64, bound: i64) -> (r: bool)
    requires
        0 < bound < 1000,
    ensures
        r == clear(i as int, bound as int),
{
    i >= bound || i <= -bound
}

/// A matchup from its prediction and its outcome.
pub fn matchup(seed: u64, p: EnginePrediction, net: i64) -> (m: Matchup)
    ensures
        m == matched(seed, p, net),
{
    let agree: bool = sign_of(p.balance) == sign_of(net) || (!is_clear(p.balance, CLEAR_BALANCE)
        && !is_clear(net, DECISIVE_HP));
    Matchup {
        seed,
        predicted_balance: p.balance,
        predicted_win_permille: p.win_permille,
        predicted_unwinnable: p.unwinnable,
        actual_net_hp: net,
        agree,
    }
}

/// The two squads of a trial.
pub open spec fn trial_squads(t: u32, energy: u32) -> (Seq<Seq<Part>>, Seq<Seq<Part>>) {
    let s0 = seed_state(t);
    let s1 = next_state(s0);
    let s2 = next_state(s1);
    let a = drawn_squad(s2, energy, drawn_in(s0, 2, 6) as nat);
    let b = drawn_squad(a.1, energy, drawn_in(s1, 2, 6) as nat);
    (a.0, b.0)
}

/// Draws the two squads of a trial.
pub fn draw_trial(t: u32, energy: u32) -> (r: (Vec<Vec<Part>>, Vec<Vec<Part>>))
    ensures
        (bodies_of(r.0@), bodies_of(r.1@)) == trial_squads(t, energy),
        2 <= r.0@.len() <= 6,
        2 <= r.1@.len() <= 6,
{
    let mut rng = Rng::seeded(t);
    let n_a: u8 = rng.range(2, 6) as u8;
    let n_b: u8 = rng.range(2, 6) as u8;
    let a: Vec<Vec<Part>> = random_squad(&mut rng, energy, n_a);
    let b: Vec<Vec<Part>> = random_squad(&mut rng, energy, n_b);
    (a, b)
}

pub open spec fn clamped(v: int) -> int {
    if v > 49 {
        49
    } else {
        v
    }
}

/// The `i`th creep of a file.
pub open spec fn placed_at(owner: PlayerId, first_id: u32, x: u8, y0: u8, i: int) -> Placed {
    Placed {
        id: (first_id + i) as u32,
        owner,
        pos: tile_in((-2i32 as i32, -2i32 as i32), clamped(x as int), clamped(y0 + i)),
    }
}

/// Puts `n` creeps down as a file in one column.
pub fn place(owner: PlayerId, first_id: u32, n: usize, x: u8, y0: u8) -> (r: Vec<Placed>)
    requires
        y0 + n <= 255,
        first_id + n <= u32::MAX,
    ensures
        r@ == Seq::new(n as nat, |i: int| placed_at(owner, first_id, x, y0, i)),
{
    let ghost want = Seq::new(n as nat, |i: int| placed_at(owner, first_id, x, y0, i));
    let mut out: Vec<Placed> = Vec::new();
    let mut i: usize = 0;
    while i < n
        invariant
            i <= n,
            y0 + n <= 255,
            first_id + n <= u32::MAX,
            want == Seq::new(n as nat, |k: int| placed_at(owner, first_id, x, y0, k)),
            out@ == want.take(i as int),
        decreases n - i,
    {
        let y: u8 = y0 + i as u8;
        let cx: u8 = if x > 49 {
            49
        } else {
            x
        };
        let cy: u8 = if y > 49 {
            49
        } else {
            y
        };
        out.push(Placed { id: first_id + i as u32, owner, pos: pos_in((-2, -2), cx, cy) });
        i = i + 1;
        assert(out@ =~= want.take(i as int));
    }
    assert(out@ =~= want);
    out
}

/// The hits that a side has left.
pub fn living_hp(world: &CombatWorld, owner: PlayerId) -> (r: i64)
    requires
        force_hits(world.creeps@.filter(fighting(owner))) <= i64::MAX,
    ensures
        r == force_hits(world.creeps@.filter(fighting(owner))),
        0 <= r,
{
    let s: Vec<SimCreep> = fighters(world, owner);
    let ghost h = Seq::new(s@.len(), |i: int| s@[i].hits as int);
    let mut sum: i64 = 0;
    let mut i: usize = 0;
    assert(h.take(0) =~= Seq::<int>::empty());
    while i < s.len()
        invariant
            i <= s@.len(),
            h == Seq::new(s@.len(), |k: int| s@[k].hits as int),
            total(h) <= i64::MAX,
            0 <= sum,
            sum == total(h.take(i as int)),
        decreases s.len() - i,
    {
        proof {
            assert(h.take(i as int + 1).drop_last() =~= h.take(i as int));
            lemma_total_bound(h, i as int + 1);
        }
        sum = sum + s[i].hits as i64;
        i = i + 1;
    }
    assert(h.take(i as int) =~= h);
    sum
}

/// The first side's hits left over the second's.
pub fn net_hp(world: &CombatWorld) -> (r: i64)
    requires
        force_hits(world.creeps@.filter(fighting(0))) <= i64::MAX,
        force_hits(world.creeps@.filter(fighting(1))) <= i64::MAX,
    ensures
        r == force_hits(world.creeps@.filter(fighting(0))) - force_hits(
            world.creeps@.filter(fighting(1)),
        ),
{
    living_hp(world, 0) - living_hp(world, 1)
}

impl ValidationReport {
    /// A summary of nothing.
    pub fn new() -> (r: ValidationReport)
        ensures
            r@.wf(),
            r@.trials == 0,
            r@.outliers.len() == 0,
    {
        ValidationReport { trials: 0, decisive: 0, correct: 0, outliers: Vec::new() }
    }

    /// Counts a matchup.
    pub fn count(&mut self, m: Matchup)
        requires
            old(self)@.wf(),
            old(self).trials < usize::MAX,
        ensures
            final(self)@ == old(self)@.counted(m),
            final(self)@.wf(),
    {
        let ghost before = self@;
        self.trials = self.trials + 1;
        if is_clear(m.predicted_balance, CLEAR_BALANCE) && is_clear(m.actual_net_hp, DECISIVE_HP) {
            self.decisive = self.decisive + 1;
            if sign_of(m.predicted_balance) == sign_of(m.actual_net_hp) {
                self.correct = self.correct + 1;
            } else {
                self.outliers.push(m);
            }
        }
        assert(self@ =~= before.counted(m));
    }
}

/// An outlier's line.
pub open spec fn outlier_line(o: Matchup) -> Seq<char> {
    "    seed "@ + right_set(decimal(o.seed as nat), 4) + ": predicted balance "@ + right_set(
        plus_decimal(o.predicted_balance as int),
        5,
    ) + " ("@ + signed_decimal(o.predicted_win_permille as int) + "‰ win) → actual net HP "@
        + right_set(plus_decimal(o.actual_net_hp as int), 6) + "\n"@
}

/// The lines of the first `n` outliers.
pub open spec fn outlier_lines(o: Seq<Matchup>, n: int) -> Seq<char>
    decreases n,
{
    if n <= 0 {
        seq![]
    } else {
        outlier_lines(o, n - 1) + outlier_line(o[n - 1])
    }
}

/// The dashboard, with the accuracy as it is to be shown: at most ten outliers are
/// listed.
pub open spec fn reported(t: TallyView, accuracy: Seq<char>) -> Seq<char> {
    "Lanchester validation — "@ + decimal(t.trials) + " random matchups:\n"@
        + "  predicted-favourite sign accuracy (decisive matchups): "@ + accuracy + "%\n"@
        + "  outliers (predicted a clear winner that LOST): "@ + decimal(t.outliers.len()) + "\n"@
        + outlier_lines(
        t.outliers,
        if t.outliers.len() < 10 {
            t.outliers.len() as int
        } else {
            10
        },
    )
}

fn push_outlier(s: &mut String, o: &Matchup)
    requires
        i64::MIN < o.predicted_balance,
        i64::MIN < o.predicted_win_permille,
        i64::MIN < o.actual_net_hp,
    ensures
        final(s)@ == old(s)@ + outlier_line(*o),
{
    let ghost before = s@;
    let mut seed: String = String::new();
    push_decimal(&mut seed, o.seed);
    let mut balance: String = String::new();
    push_plus(&mut balance, o.predicted_balance);
    let mut net: String = String::new();
    push_plus(&mut net, o.actual_net_hp);
    assert(seed@ =~= decimal(o.seed as nat));
    assert(balance@ =~= plus_decimal(o.predicted_balance as int));
    assert(net@ =~= plus_decimal(o.actual_net_hp as int));
    s.append("    seed ");
    push_right(s, seed.as_str(), 4);
    s.append(": predicted balance ");
    push_right(s, balance.as_str(), 5);
    s.append(" (");
    push_signed(s, o.predicted_win_permille);
    s.append("‰ win) → actual net HP ");
    push_right(s, net.as_str(), 6);
    s.append("\n");
    assert(s@ =~= before + outlier_line(*o));
}

/// The dashboard, with the accuracy as it is to be shown.
pub fn report(r: &ValidationReport, accuracy: &str) -> (s: String)
    requires
        forall|i: int|
            0 <= i < r.outliers@.len() ==> i64::MIN < (#[trigger] r.outliers@[i]).predicted_balance
                && i64::MIN < r.outliers@[i].predicted_win_permille && i64::MIN
                < r.outliers@[i].actual_net_hp,
    ensures
        s@ == reported(r@, accuracy@),
{
    let mut s: String = String::from_str("Lanchester validation — ");
    push_decimal(&mut s, r.trials as u64);
    s.append(" random matchups:\n");
    s.append("  predicted-favourite sign accuracy (decisive matchups): ");
    s.append(accuracy);
    s.append("%\n");
    s.append("  outliers (predicted a clear winner that LOST): ");
    push_decimal(&mut s, r.outliers.len() as u64);
    s.append("\n");
    let ghost head = s@;
    let n: usize = if r.outliers.len() < 10 {
        r.outliers.len()
    } else {
        10
    };
    let mut i: usize = 0;
    assert(s@ =~= head + outlier_lines(r.outliers@, 0));
    while i < n
        invariant
            i <= n <= r.outliers@.len(),
            forall|k: int|
                0 <= k < r.outliers@.len() ==> i64::MIN < (
                #[trigger] r.outliers@[k]).predicted_balance && i64::MIN
                    < r.outliers@[k].predicted_win_permille && i64::MIN
                    < r.outliers@[k].actual_net_hp,
            s@ == head + outlier_lines(r.outliers@, i as int),
        decreases n - i,
    {
        push_outlier(&mut s, &r.outliers[i]);
        i = i + 1;
        assert(s@ =~= head + outlier_lines(r.outliers@, i as int));
    }
    assert(s@ =~= reported(r@, accuracy@));
    s
}

// ── What the tally is for ──────────────────────────────────────────────────

/// The tally is fair to both sides: seen from the other side, where the balance and the net
/// hits change their signs, a matchup counts for the same.
pub proof fn tally_is_fair_to_both_sides(
    t: TallyView,
    seed: u64,
    p: EnginePrediction,
    q: EnginePrediction,
    net: i64,
    other: i64,
)
    requires
        q.balance == -p.balance,
        other == -net,
    ensures
        ({
            let a = t.counted(matched(seed, p, net));
            let b = t.counted(matched(seed, q, other));
            &&& a.trials == b.trials
            &&& a.decisive == b.decisive
            &&& a.correct == b.correct
            &&& a.outliers.len() == b.outliers.len()
            &&& matched(seed, p, net).agree == matched(seed, q, other).agree
        }),
{
}

/// A matchup says what was predicted and what came of it.
pub proof fn matchup_keeps_its_numbers(seed: u64, p: EnginePrediction, net: i64)
    ensures
        ({
            let m = matched(seed, p, net);
            &&& m.seed == seed
            &&& m.predicted_balance == p.balance
            &&& m.predicted_win_permille == p.win_permille
            &&& m.predicted_unwinnable == p.unwinnable
            &&& m.actual_net_hp == net
        }),
{
}

/// A clear favourite, on either side, that loses clearly is always reported.
pub proof fn a_beaten_favourite_is_reported(t: TallyView, m: Matchup)
    requires
        (m.predicted_balance >= 150 && m.actual_net_hp <= -400) || (m.predicted_balance <= -150
            && m.actual_net_hp >= 400),
    ensures
        t.counted(m).trials == t.trials + 1,
        t.counted(m).decisive == t.decisive + 1,
        t.counted(m).correct == t.correct,
        t.counted(m).outliers == t.outliers.push(m),
{
}

/// A clear favourite, on either side, that wins clearly is counted as called right.
pub proof fn a_winning_favourite_is_called_right(t: TallyView, m: Matchup)
    requires
        (m.predicted_balance >= 150 && m.actual_net_hp >= 400) || (m.predicted_balance <= -150
            && m.actual_net_hp <= -400),
    ensures
        t.counted(m).trials == t.trials + 1,
        t.counted(m).decisive == t.decisive + 1,
        t.counted(m).correct == t.correct + 1,
        t.counted(m).outliers == t.outliers,
{
}

/// Without a clear favourite, or without a clear winner, a matchup is a trial and no more.
pub proof fn a_close_matchup_decides_nothing(t: TallyView, m: Matchup)
    requires
        -150 < m.predicted_balance < 150 || -400 < m.actual_net_hp < 400,
    ensures
        t.counted(m).trials == t.trials + 1,
        t.counted(m).decisive == t.decisive,
        t.counted(m).correct == t.correct,
        t.counted(m).outliers == t.outliers,
{
}

/// Prediction and outcome agree where they point the same way or where neither says much,
/// and only there.
pub proof fn agreement_is_of_signs(seed: u64, p: EnginePrediction, net: i64)
    ensures
        (p.balance > 0 && net > 0) || (p.balance < 0 && net < 0) || (p.balance == 0 && net == 0)
            ==> matched(seed, p, net).agree,
        -150 < p.balance < 150 && -400 < net < 400 ==> matched(seed, p, net).agree,
        ((p.balance > 0 && net <= 0) || (p.balance < 0 && net >= 0) || (p.balance == 0 && net
            != 0)) && (p.balance >= 150 || p.balance <= -150 || net >= 400 || net <= -400)
            ==> !matched(seed, p, net).agree,
{
}

/// A file stands in one column, one creep per row as long as the room has rows, with ids in
/// order from the first.
pub proof fn a_file_stands_in_its_column(owner: PlayerId, first: u32, x: u8, y0: u8, i: int, j: int)
    requires
        0 <= i < j,
        first + j <= u32::MAX,
        x < 50,
        y0 + j < 50,
    ensures
        ({
            let (a, b) = (placed_at(owner, first, x, y0, i), placed_at(owner, first, x, y0, j));
            &&& a.owner == owner
            &&& b.id - a.id == j - i
            &&& a.id == first + i
            &&& a.pos.wx == b.pos.wx == -100 + x
            &&& b.pos.wy - a.pos.wy == j - i
            &&& a.pos.wy == -100 + y0 + i
        }),
{
}

/// A report lists every outlier up to the tenth, and none after it.
pub proof fn report_lists_ten_outliers_at_most(t: TallyView, u: TallyView, accuracy: Seq<char>)
    requires
        t.trials == u.trials,
        t.outliers.len() == u.outliers.len(),
        forall|i: int| 0 <= i < t.outliers.len() && i < 10 ==> t.outliers[i] == #[trigger] u.outliers[i],
    ensures
        reported(t, accuracy) == reported(u, accuracy),
        t.outliers.len() <= 10 ==> outlier_lines(t.outliers, t.outliers.len() as int)
            == reported(t, accuracy).skip(
            reported(t, accuracy).len() - outlier_lines(t.outliers, t.outliers.len() as int).len(),
        ),
{
    let n: int = if t.outliers.len() < 10 {
        t.outliers.len() as int
    } else {
        10
    };
    lemma_lines_agree(t.outliers, u.outliers, n);
    let tail = outlier_lines(t.outliers, n);
    let r = reported(t, accuracy);
    assert(r.skip(r.len() - tail.len()) =~= tail);
}

proof fn lemma_lines_agree(a: Seq<Matchup>, b: Seq<Matchup>, n: int)
    requires
        n <= a.len(),
        n <= b.len(),
        forall|i: int| 0 <= i < n ==> a[i] == #[trigger] b[i],
    ensures
        outlier_lines(a, n) == outlier_lines(b, n),
    decreases n,
{
    if n > 0 {
        lemma_lines_agree(a, b, n - 1);
        assert(a[n - 1] == b[n - 1]);
    }
}

/// A trial's sides have two to six members each, whose numbers are drawn first, one side after
/// the other; the bodies follow in the same order.
pub proof fn a_trial_draws_sizes_before_bodies(t: u32, energy: u32)
    ensures
        ({
            let s0 = seed_state(t);
            let s1 = next_state(s0);
            let first = drawn_squad(next_state(s1), energy, (2 + drawn(s0) as int % 5) as nat);
            let second = drawn_squad(first.1, energy, (2 + drawn(s1) as int % 5) as nat);
            &&& trial_squads(t, energy).0 == first.0
            &&& trial_squads(t, energy).1 == second.0
        }),
{
}

} // verus!
