//! Tuning by sweep: the beds that a set of parameters is graded over, the gates that
//! it has to hold, and the winning-but-efficient order of the sets. Rates, means and
//! weights are kept as the bit patterns of their numbers. None of them is negative,
//! so that two patterns compare as the numbers do.

use crate::colony::{ColonyFormingScenario, EconomyPressure, Home};
use crate::generate::{ForceSpec, Layout};
use crate::lifecycle::LifecycleOutcome;
use crate::text::{decimal, left_set, push_decimal, push_left};
use crate::validate::{Calibration, CreepClearWins, SizingWins};
use vstd::prelude::*;
use vstd::string::*;

verus! {

/// Bases that the calibration and the sizing beds run over.
pub const SWEEP_CALIBRATION_SCENARIOS: u32 = 80;

/// Bit patterns of the spawn priorities 75 and 87.5.
pub const HAULER_PRIORITY: u32 = 0x4296_0000;

pub const COMBAT_PRIORITY: u32 = 0x42af_0000;

/// The beds of a sweep.
#[derive(Clone, Copy, Debug, PartialEq, Eq, Structural)]
pub enum Regime {
    Structure,
    Creep,
    Defended,
    All,
}

/// A character of Unicode's `White_Space` property.
pub open spec fn is_white(c: char) -> bool {
    ||| '\u{9}' <= c <= '\u{d}'
    ||| c == '\u{20}'
    ||| c == '\u{85}'
    ||| c == '\u{a0}'
    ||| c == '\u{1680}'
    ||| '\u{2000}' <= c <= '\u{200a}'
    ||| c == '\u{2028}'
    ||| c == '\u{2029}'
    ||| c == '\u{202f}'
    ||| c == '\u{205f}'
    ||| c == '\u{3000}'
}

pub open spec fn trimmed_start(s: Seq<char>) -> Seq<char>
    decreases s.len(),
{
    if s.len() > 0 && is_white(s[0]) {
        trimmed_start(s.drop_first())
    } else {
        s
    }
}

pub open spec fn trimmed_end(s: Seq<char>) -> Seq<char>
    decreases s.len(),
{
    if s.len() > 0 && is_white(s.last()) {
        trimmed_end(s.drop_last())
    } else {
        s
    }
}

/// A letter of the ASCII alphabet in lower case.
pub open spec fn lower(c: char) -> char {
    if 'A' <= c <= 'Z' {
        (c as u32 + 32) as char
    } else {
        c
    }
}

/// What a text reads as: without white space at either end, and without regard to
/// the case of ASCII letters.
pub open spec fn plain_word(s: Seq<char>) -> Seq<char> {
    let t = trimmed_end(trimmed_start(s));
    Seq::new(t.len(), |i: int| lower(t[i]))
}

pub open spec fn regime_named(s: Seq<char>) -> Option<Regime> {
    let w = plain_word(s);
    if w == "structure"@ {
        Some(Regime::Structure)
    } else if w == "creep"@ {
        Some(Regime::Creep)
    } else if w == "defended"@ {
        Some(Regime::Defended)
    } else if w == "all"@ {
        Some(Regime::All)
    } else {
        None
    }
}

fn white(c: char) -> (r: bool)
    ensures
        r == is_white(c),
{
    ('\u{9}' <= c && c <= '\u{d}') || c == '\u{20}' || c == '\u{85}' || c == '\u{a0}' || c
        == '\u{1680}' || ('\u{2000}' <= c && c <= '\u{200a}') || c == '\u{2028}' || c == '\u{2029}'
        || c == '\u{202f}' || c == '\u{205f}' || c == '\u{3000}'
}

/// Where the text without white space at either end begins and ends.
fn trim_bounds(s: &str) -> (r: (usize, usize))
    ensures
        r.0 <= r.1 <= s@.len(),
        s@.subrange(r.0 as int, r.1 as int) == trimmed_end(trimmed_start(s@)),
{
    let n: usize = s.unicode_len();
    let mut from: usize = 0;
    assert(s@.skip(0) =~= s@);
    while from < n && white(s.get_char(from))
        invariant
            from <= n,
            n == s@.len(),
            trimmed_start(s@.skip(from as int)) == trimmed_start(s@),
        decreases n - from,
    {
        assert(s@.skip(from as int).drop_first() =~= s@.skip(from as int + 1));
        from = from + 1;
    }
    let ghost t = s@.skip(from as int);
    assert(trimmed_start(s@) == t);
    let mut to: usize = n;
    assert(t.take(n - from) =~= t);
    while from < to && white(s.get_char(to - 1))
        invariant
            from <= to <= n,
            n == s@.len(),
            t == s@.skip(from as int),
            trimmed_end(t.take(to - from)) == trimmed_end(t),
        decreases to,
    {
        assert(t.take(to - from).drop_last() =~= t.take(to - from - 1));
        to = to - 1;
    }
    assert(s@.subrange(from as int, to as int) =~= t.take(to - from));
    (from, to)
}

fn same_letter(c: char, w: char) -> (r: bool)
    ensures
        r == (lower(c) == w),
{
    if 'A' <= c && c <= 'Z' {
        c as u32 + 32 == w as u32
    } else {
        c == w
    }
}

/// Whether the text between two bounds reads as a word, whatever its case.
fn reads_as(s: &str, from: usize, to: usize, word: &str) -> (r: bool)
    requires
        from <= to <= s@.len(),
    ensures
        r == (Seq::new((to - from) as nat, |i: int| lower(s@.subrange(from as int, to as int)[i]))
            == word@),
{
    let ghost have = Seq::new(
        (to - from) as nat,
        |i: int| lower(s@.subrange(from as int, to as int)[i]),
    );
    let n: usize = word.unicode_len();
    if n != to - from {
        return false;
    }
    let mut i: usize = 0;
    while i < n
        invariant
            i <= n,
            n == word@.len(),
            n == to - from,
            from <= to <= s@.len(),
            have == Seq::new(
                (to - from) as nat,
                |k: int| lower(s@.subrange(from as int, to as int)[k]),
            ),
            forall|k: int| 0 <= k < i ==> have[k] == #[trigger] word@[k],
        decreases n - i,
    {
        let c: char = s.get_char(from + i);
        let w: char = word.get_char(i);
        assert(have[i as int] == lower(c));
        if !same_letter(c, w) {
            assert(have[i as int] != word@[i as int]);
            return false;
        }
        i = i + 1;
    }
    assert(have =~= word@);
    true
}

impl Regime {
    /// The regime that a text names, if any. White space at either end and the case
    /// of ASCII letters do not matter.
    pub fn parse(s: &str) -> (r: Option<Regime>)
        ensures
            r == regime_named(s@),
    {
        let b: (usize, usize) = trim_bounds(s);
        assert(plain_word(s@) == Seq::new(
            (b.1 - b.0) as nat,
            |i: int| lower(s@.subrange(b.0 as int, b.1 as int)[i]),
        ));
        if reads_as(s, b.0, b.1, "structure") {
            Some(Regime::Structure)
        } else if reads_as(s, b.0, b.1, "creep") {
            Some(Regime::Creep)
        } else if reads_as(s, b.0, b.1, "defended") {
            Some(Regime::Defended)
        } else if reads_as(s, b.0, b.1, "all") {
            Some(Regime::All)
        } else {
            None
        }
    }

    pub open spec fn has_structure(self) -> bool {
        self == Regime::Structure || self == Regime::All
    }

    pub open spec fn has_creep(self) -> bool {
        self == Regime::Creep || self == Regime::All
    }

    pub open spec fn has_defended(self) -> bool {
        self == Regime::Defended || self == Regime::All
    }

    /// Whether the bed without creeps is run.
    pub fn runs_structure(self) -> (r: bool)
        ensures
            r == self.has_structure(),
    {
        self == Regime::Structure || self == Regime::All
    }

    /// Whether the creep-clearing bed is run.
    pub fn runs_creep(self) -> (r: bool)
        ensures
            r == self.has_creep(),
    {
        self == Regime::Creep || self == Regime::All
    }

    /// Whether the acceptance regimes are run.
    pub fn runs_defended(self) -> (r: bool)
        ensures
            r == self.has_defended(),
    {
        self == Regime::Defended || self == Regime::All
    }
}

/// Case and surrounding white space do not change what a text names.
pub proof fn naming_ignores_case_and_white_space(s: Seq<char>, t: Seq<char>, c: char)
    requires
        is_white(c),
        s.len() == t.len(),
        forall|i: int| 0 <= i < s.len() ==> lower(#[trigger] s[i]) == lower(t[i]),
    ensures
        regime_named(seq![c] + s) == regime_named(s),
        regime_named(s.push(c)) == regime_named(s),
        regime_named(s) == regime_named(t),
{
    assert((seq![c] + s).drop_first() =~= s);
    lemma_push_white(s, c);
    lemma_start_keeps_case(s, t);
    let a = trimmed_start(s);
    let b = trimmed_start(t);
    lemma_end_keeps_case(a, b);
    assert(plain_word(s) =~= plain_word(t));
}

proof fn lemma_push_white(s: Seq<char>, c: char)
    requires
        is_white(c),
    ensures
        trimmed_end(trimmed_start(s.push(c))) == trimmed_end(trimmed_start(s)),
    decreases s.len(),
{
    if s.len() == 0 {
        assert(s.push(c).drop_first() =~= s);
    } else if is_white(s[0]) {
        assert(s.push(c).drop_first() =~= s.drop_first().push(c));
        lemma_push_white(s.drop_first(), c);
    } else {
        assert(s.push(c).drop_last() =~= s);
    }
}

/// White space is told apart from letters by either case.
proof fn lemma_white_lower(c: char, d: char)
    requires
        lower(c) == lower(d),
    ensures
        is_white(c) == is_white(d),
{
}

proof fn lemma_start_keeps_case(s: Seq<char>, t: Seq<char>)
    requires
        s.len() == t.len(),
        forall|i: int| 0 <= i < s.len() ==> lower(#[trigger] s[i]) == lower(t[i]),
    ensures
        trimmed_start(s).len() == trimmed_start(t).len(),
        forall|i: int|
            0 <= i < trimmed_start(s).len() ==> lower(#[trigger] trimmed_start(s)[i]) == lower(
                trimmed_start(t)[i],
            ),
    decreases s.len(),
{
    if s.len() > 0 {
        assert(lower(s[0]) == lower(t[0]));
        lemma_white_lower(s[0], t[0]);
        if is_white(s[0]) {
            assert forall|i: int| 0 <= i < s.drop_first().len() implies lower(
                #[trigger] s.drop_first()[i],
            ) == lower(t.drop_first()[i]) by {
                assert(lower(s[i + 1]) == lower(t[i + 1]));
            }
            lemma_start_keeps_case(s.drop_first(), t.drop_first());
        }
    }
}

proof fn lemma_end_keeps_case(s: Seq<char>, t: Seq<char>)
    requires
        s.len() == t.len(),
        forall|i: int| 0 <= i < s.len() ==> lower(#[trigger] s[i]) == lower(t[i]),
    ensures
        trimmed_end(s).len() == trimmed_end(t).len(),
        forall|i: int|
            0 <= i < trimmed_end(s).len() ==> lower(#[trigger] trimmed_end(s)[i]) == lower(
                trimmed_end(t)[i],
            ),
    decreases s.len(),
{
    if s.len() > 0 {
        let n = s.len() - 1;
        assert(lower(s[n]) == lower(t[n]));
        lemma_white_lower(s[n], t[n]);
        if is_white(s.last()) {
            assert forall|i: int| 0 <= i < s.drop_last().len() implies lower(
                #[trigger] s.drop_last()[i],
            ) == lower(t.drop_last()[i]) by {
                assert(lower(s[i]) == lower(t[i]));
            }
            lemma_end_keeps_case(s.drop_last(), t.drop_last());
        }
    }
}

pub open spec fn forming_bed(slots: usize, f: ColonyFormingScenario) -> bool {
    &&& f.slots == slots
    &&& f.homes@ == Seq::new(
        4,
        |i: int| Home { energy_capacity: 12_900, income: 1000, start_energy: 12_900 },
    )
    &&& f.economy == (EconomyPressure {
        hauler: Some((HAULER_PRIORITY, 1000)),
        miner: None,
        miner_period: 0,
    })
    &&& f.combat_priority == COMBAT_PRIORITY
    &&& f.per_member_cap == 12_900
    &&& f.budget_ticks == 4000
    &&& f.member_ttl == 1500
    &&& !f.renew
}

/// The homes and the economy that the acceptance regimes are formed in, for a
/// composition of so many slots.
pub fn defended_forming(slots: usize) -> (f: ColonyFormingScenario)
    ensures
        forming_bed(slots, f),
{
    let mut homes: Vec<Home> = Vec::new();
    let home = Home { energy_capacity: 12_900, income: 1000, start_energy: 12_900 };
    homes.push(home);
    homes.push(home);
    homes.push(home);
    homes.push(home);
    assert(homes@ =~= Seq::new(
        4,
        |i: int| Home { energy_capacity: 12_900, income: 1000, start_energy: 12_900 },
    ));
    ColonyFormingScenario {
        slots,
        homes,
        economy: EconomyPressure {
            hauler: Some((HAULER_PRIORITY, 1000)),
            miner: None,
            miner_period: 0,
        },
        combat_priority: COMBAT_PRIORITY,
        per_member_cap: 12_900,
        budget_ticks: 4000,
        member_ttl: 1500,
        renew: false,
    }
}

/// A defended core that a set of parameters has to kill.
#[derive(Debug)]
pub struct AcceptanceRegime {
    pub label: &'static str,
    pub rampart: u32,
    /// The tile and the energy of each tower.
    pub towers: Vec<((u8, u8), u32)>,
    pub layout: Layout,
    pub force: ForceSpec,
}

pub open spec fn far_tower() -> Seq<((u8, u8), u32)> {
    seq![((24u8, 16u8), 100_000u32)]
}

pub open spec fn regime_is(
    r: AcceptanceRegime,
    label: Seq<char>,
    rampart: u32,
    towers: Seq<((u8, u8), u32)>,
    layout: Layout,
    guards: u32,
) -> bool {
    &&& r.label@ == label
    &&& r.rampart == rampart
    &&& r.towers@ == towers
    &&& r.layout == layout
    &&& r.force == ForceSpec::Guard(guards)
}

fn one_far_tower() -> (r: Vec<((u8, u8), u32)>)
    ensures
        r@ == far_tower(),
{
    let mut v: Vec<((u8, u8), u32)> = Vec::new();
    v.push(((24, 16), 100_000));
    assert(v@ =~= far_tower());
    v
}

/// The defended cores that a set of parameters has to kill.
pub fn acceptance_regimes() -> (r: Vec<AcceptanceRegime>)
    ensures
        r@.len() == 4,
        regime_is(
            r@[0],
            "canonical: rampart + tower + guard"@,
            30_000,
            far_tower(),
            Layout::Open,
            2,
        ),
        regime_is(r@[1], "rampart-only + light guard"@, 50_000, seq![], Layout::Open, 1),
        regime_is(r@[2], "tower-only + guard"@, 0, far_tower(), Layout::Open, 2),
        regime_is(r@[3], "corridor choke + guard"@, 20_000, far_tower(), Layout::Corridor, 2),
{
    let mut v: Vec<AcceptanceRegime> = Vec::new();
    v.push(
        AcceptanceRegime {
            label: "canonical: rampart + tower + guard",
            rampart: 30_000,
            towers: one_far_tower(),
            layout: Layout::Open,
            force: ForceSpec::Guard(2),
        },
    );
    v.push(
        AcceptanceRegime {
            label: "rampart-only + light guard",
            rampart: 50_000,
            towers: Vec::new(),
            layout: Layout::Open,
            force: ForceSpec::Guard(1),
        },
    );
    v.push(
        AcceptanceRegime {
            label: "tower-only + guard",
            rampart: 0,
            towers: one_far_tower(),
            layout: Layout::Open,
            force: ForceSpec::Guard(2),
        },
    );
    v.push(
        AcceptanceRegime {
            label: "corridor choke + guard",
            rampart: 20_000,
            towers: one_far_tower(),
            layout: Layout::Corridor,
            force: ForceSpec::Guard(2),
        },
    );
    v
}

/// What the beds of one set of parameters add up to.
#[derive(Clone, Copy, Debug, PartialEq, Eq, Structural)]
pub struct SweepTotals {
    pub fielded: u32,
    pub won: u64,
    pub attempted: u64,
    pub winning_cost: u64,
    pub gates_held: bool,
}

pub open spec fn counted(run: bool, n: int) -> int {
    if run {
        n
    } else {
        0
    }
}

/// Every acceptance regime that was run ended in a kill.
pub open spec fn all_killed(s: Seq<LifecycleOutcome>) -> bool {
    forall|i: int| 0 <= i < s.len() ==> (#[trigger] s[i]) is Killed
}

pub open spec fn totals_of(
    regime: Regime,
    calib: Calibration,
    sizing: SizingWins,
    creep: CreepClearWins,
    outcomes: Seq<LifecycleOutcome>,
) -> SweepTotals {
    let s = regime.has_structure();
    let c = regime.has_creep();
    SweepTotals {
        fielded: if s {
            calib.fielded
        } else {
            0
        },
        won: (counted(s, sizing.won as int) + counted(c, creep.won as int)) as u64,
        attempted: (counted(s, sizing.attempted as int) + counted(c, creep.attempted as int)) as u64,
        winning_cost: (counted(s, sizing.winning_spawn_cost as int) + counted(
            c,
            creep.winning_spawn_cost as int,
        )) as u64,
        gates_held: calib.fp_held() && calib.fn_held() && (regime.has_defended() ==> all_killed(
            outcomes,
        )),
    }
}

/// Folds the beds of one set of parameters. The calibration always counts; the other
/// beds count where the regime runs them.
pub fn evaluate_params(
    regime: Regime,
    calib: &Calibration,
    sizing: &SizingWins,
    creep: &CreepClearWins,
    outcomes: &Vec<LifecycleOutcome>,
) -> (r: SweepTotals)
    requires
        sizing.winning_spawn_cost + creep.winning_spawn_cost <= u64::MAX,
    ensures
        r == totals_of(regime, *calib, *sizing, *creep, outcomes@),
{
    let mut won: u64 = 0;
    let mut attempted: u64 = 0;
    let mut winning_cost: u64 = 0;
    let mut fielded: u32 = 0;
    if regime.runs_structure() {
        won = sizing.won as u64;
        attempted = sizing.attempted as u64;
        winning_cost = sizing.winning_spawn_cost;
        fielded = calib.fielded;
    }
    if regime.runs_creep() {
        won = won + creep.won as u64;
        attempted = attempted + creep.attempted as u64;
        winning_cost = winning_cost + creep.winning_spawn_cost;
    }
    let mut killed: bool = true;
    if regime.runs_defended() {
        let mut i: usize = 0;
        while i < outcomes.len()
            invariant
                i <= outcomes@.len(),
                killed == all_killed(outcomes@.take(i as int)),
            decreases outcomes.len() - i,
        {
            let this: bool = match &outcomes[i] {
                LifecycleOutcome::Killed { form_ticks: _, engage_ticks: _ } => true,
                _ => false,
            };
            assert(outcomes@.take(i as int + 1) =~= outcomes@.take(i as int).push(
                outcomes@[i as int],
            ));
            let ghost before = outcomes@.take(i as int);
            let ghost after = outcomes@.take(i as int + 1);
            assert(all_killed(after) == (all_killed(before) && this)) by {
                if all_killed(after) {
                    assert forall|k: int| 0 <= k < before.len() implies (
                    #[trigger] before[k]) is Killed by {
                        assert(after[k] is Killed);
                    }
                    assert(after[i as int] is Killed);
                }
            }
            killed = killed && this;
            i = i + 1;
        }
        assert(outcomes@.take(i as int) =~= outcomes@);
    }
    SweepTotals {
        fielded,
        won,
        attempted,
        winning_cost,
        gates_held: calib.fp_gate() && calib.fn_gate() && killed,
    }
}

/// The gates never open for parameters that the calibration rejects.
pub proof fn gates_need_the_calibration(
    regime: Regime,
    calib: Calibration,
    sizing: SizingWins,
    creep: CreepClearWins,
    outcomes: Seq<LifecycleOutcome>,
)
    requires
        totals_of(regime, calib, sizing, creep, outcomes).gates_held,
    ensures
        calib.false_positives * 100 <= calib.fielded,
        calib.false_negatives * 5 <= calib.deferred,
{
}

/// The score of one set of parameters.
#[derive(Clone, Copy, Debug, PartialEq, Eq, Structural)]
pub struct ParamScore {
    pub fielded: u32,
    pub win_rate: u64,
    pub fp_rate: u64,
    pub fn_rate: u64,
    pub mean_spawn_cost_per_win: u64,
    pub gates_held: bool,
}

impl ParamScore {
    /// Larger is better in each part: the gates, the wins, the saving.
    pub open spec fn key(self) -> (u8, u64, u64) {
        (
            if self.gates_held {
                1u8
            } else {
                0u8
            },
            self.win_rate,
            (u64::MAX - self.mean_spawn_cost_per_win) as u64,
        )
    }

    /// What scores are ranked by, part by part; larger is better.
    pub fn winning_efficient_key(&self) -> (r: (u8, u64, u64))
        ensures
            r == self.key(),
    {
        let gates: u8 = if self.gates_held {
            1
        } else {
            0
        };
        (gates, self.win_rate, u64::MAX - self.mean_spawn_cost_per_win)
    }
}

/// The first key is no worse than the second.
pub open spec fn no_worse(a: (u8, u64, u64), b: (u8, u64, u64)) -> bool {
    a.0 > b.0 || (a.0 == b.0 && (a.1 > b.1 || (a.1 == b.1 && a.2 >= b.2)))
}

/// Best first.
pub open spec fn best_first<T>(s: Seq<(T, ParamScore)>) -> bool {
    forall|i: int, j: int|
        0 <= i <= j < s.len() ==> no_worse((#[trigger] s[i]).1.key(), (#[trigger] s[j]).1.key())
}

pub open spec fn scored<T>(k: (u8, u64, u64)) -> spec_fn((T, ParamScore)) -> bool {
    |p: (T, ParamScore)| p.1.key() == k
}

fn at_least(a: (u8, u64, u64), b: (u8, u64, u64)) -> (r: bool)
    ensures
        r == no_worse(a, b),
{
    a.0 > b.0 || (a.0 == b.0 && (a.1 > b.1 || (a.1 == b.1 && a.2 >= b.2)))
}

proof fn lemma_filter_none<A>(s: Seq<A>, p: spec_fn(A) -> bool)
    requires
        forall|i: int| 0 <= i < s.len() ==> !p(#[trigger] s[i]),
    ensures
        s.filter(p) == Seq::<A>::empty(),
    decreases s.len(),
{
    reveal(Seq::filter);
    if s.len() > 0 {
        assert(!p(s[s.len() - 1]));
        assert forall|i: int| 0 <= i < s.drop_last().len() implies !p(
            #[trigger] s.drop_last()[i],
        ) by {
            assert(!p(s[i]));
        }
        lemma_filter_none(s.drop_last(), p);
    }
}

/// Putting a point behind all that are no worse keeps the points of each key in order.
proof fn lemma_insert_keeps_order<T>(
    s: Seq<(T, ParamScore)>,
    at: int,
    x: (T, ParamScore),
    k: (u8, u64, u64),
)
    requires
        0 <= at <= s.len(),
        forall|i: int| at <= i < s.len() ==> !no_worse((#[trigger] s[i]).1.key(), x.1.key()),
    ensures
        s.insert(at, x).filter(scored::<T>(k)) == s.push(x).filter(scored::<T>(k)),
{
    let p = scored::<T>(k);
    let a = s.take(at);
    let b = s.skip(at);
    let one = seq![x];
    assert(s.insert(at, x) =~= (a + one) + b);
    assert(s.push(x) =~= (a + b) + one);
    Seq::filter_distributes_over_add(a + one, b, p);
    Seq::filter_distributes_over_add(a, one, p);
    Seq::filter_distributes_over_add(a + b, one, p);
    Seq::filter_distributes_over_add(a, b, p);
    if x.1.key() == k {
        assert forall|i: int| 0 <= i < b.len() implies !p(#[trigger] b[i]) by {
            assert(!no_worse(s[at + i].1.key(), x.1.key()));
        }
        lemma_filter_none(b, p);
        assert((a.filter(p) + one.filter(p)) + b.filter(p) =~= (a.filter(p) + b.filter(p))
            + one.filter(p));
    } else {
        lemma_filter_none(one, p);
        assert((a.filter(p) + one.filter(p)) + b.filter(p) =~= (a.filter(p) + b.filter(p))
            + one.filter(p));
    }
}

/// Ranks points, best first: gates held, then the higher win rate, then the lower
/// cost per win. Points with equal keys keep their order.
pub fn rank<T>(points: Vec<(T, ParamScore)>) -> (r: Vec<(T, ParamScore)>)
    ensures
        best_first(r@),
        forall|k: (u8, u64, u64)| #[trigger]
            r@.filter(scored::<T>(k)) == points@.filter(scored::<T>(k)),
{
    let mut rest: Vec<(T, ParamScore)> = points;
    let mut out: Vec<(T, ParamScore)> = Vec::new();
    let ghost mut done: int = 0;
    assert(points@.take(0) =~= out@);
    assert(points@.skip(0) =~= rest@);
    while rest.len() > 0
        invariant
            0 <= done <= points@.len(),
            rest@ == points@.skip(done),
            best_first(out@),
            forall|k: (u8, u64, u64)| #[trigger]
                out@.filter(scored::<T>(k)) == points@.take(done).filter(scored::<T>(k)),
        decreases rest.len(),
    {
        let x: (T, ParamScore) = rest.remove(0);
        proof {
            assert(x == points@[done]);
            assert(rest@ =~= points@.skip(done + 1));
            assert(points@.take(done + 1) =~= points@.take(done).push(x));
        }
        let key: (u8, u64, u64) = x.1.winning_efficient_key();
        let mut at: usize = 0;
        while at < out.len() && at_least(out[at].1.winning_efficient_key(), key)
            invariant
                at <= out@.len(),
                key == x.1.key(),
                forall|i: int| 0 <= i < at ==> no_worse((#[trigger] out@[i]).1.key(), key),
            decreases out.len() - at,
        {
            at = at + 1;
        }
        let ghost before = out@;
        proof {
            assert forall|i: int| at <= i < before.len() implies !no_worse(
                (#[trigger] before[i]).1.key(),
                x.1.key(),
            ) by {
                assert(no_worse(before[at as int].1.key(), before[i].1.key()));
            }
            assert forall|k: (u8, u64, u64)| #[trigger]
                before.insert(at as int, x).filter(scored::<T>(k)) == points@.take(done + 1).filter(
                    scored::<T>(k),
                ) by {
                lemma_insert_keeps_order(before, at as int, x, k);
                let one = seq![x];
                assert(before.push(x) =~= before + one);
                assert(points@.take(done).push(x) =~= points@.take(done) + one);
                Seq::filter_distributes_over_add(before, one, scored::<T>(k));
                Seq::filter_distributes_over_add(points@.take(done), one, scored::<T>(k));
                assert(before.filter(scored::<T>(k)) == points@.take(done).filter(scored::<T>(k)));
            }
        }
        out.insert(at, x);
        proof {
            let s = out@;
            assert forall|i: int, j: int| 0 <= i <= j < s.len() implies no_worse(
                (#[trigger] s[i]).1.key(),
                (#[trigger] s[j]).1.key(),
            ) by {
                if i < at && j > at {
                    assert(no_worse(before[i].1.key(), before[j - 1].1.key()));
                } else if i < at && j < at {
                    assert(no_worse(before[i].1.key(), before[j].1.key()));
                } else if i > at {
                    assert(no_worse(before[i - 1].1.key(), before[j - 1].1.key()));
                } else if i == at && j > at {
                    assert(!no_worse(before[j - 1].1.key(), x.1.key()));
                } else if j == at && i < at {
                    assert(no_worse(before[i].1.key(), key));
                }
            }
            done = done + 1;
        }
    }
    assert(points@.take(done) =~= points@);
    out
}

/// In a ranking a point that holds the gates never stands behind one that does not,
/// and among those that do, none stands behind one that wins less, or as much at a
/// higher cost.
pub proof fn ranking_is_winning_but_efficient<T>(s: Seq<(T, ParamScore)>, i: int, j: int)
    requires
        best_first(s),
        0 <= i < j < s.len(),
    ensures
        s[j].1.gates_held ==> s[i].1.gates_held,
        s[i].1.gates_held == s[j].1.gates_held ==> s[i].1.win_rate >= s[j].1.win_rate,
        s[i].1.gates_held == s[j].1.gates_held && s[i].1.win_rate == s[j].1.win_rate
            ==> s[i].1.mean_spawn_cost_per_win <= s[j].1.mean_spawn_cost_per_win,
{
    assert(no_worse(s[i].1.key(), s[j].1.key()));
}

/// Nothing is lost and nothing is added by ranking.
pub proof fn ranking_keeps_every_point<T>(
    r: Seq<(T, ParamScore)>,
    points: Seq<(T, ParamScore)>,
    p: (T, ParamScore),
)
    requires
        forall|k: (u8, u64, u64)| #[trigger]
            r.filter(scored::<T>(k)) == points.filter(scored::<T>(k)),
    ensures
        r.to_multiset().count(p) == points.to_multiset().count(p),
{
    let k = p.1.key();
    lemma_filter_keeps_count(r, p);
    lemma_filter_keeps_count(points, p);
    assert(r.filter(scored::<T>(k)) == points.filter(scored::<T>(k)));
}

proof fn lemma_filter_keeps_count<T>(s: Seq<(T, ParamScore)>, p: (T, ParamScore))
    ensures
        s.to_multiset().count(p) == s.filter(scored::<T>(p.1.key())).to_multiset().count(p),
    decreases s.len(),
{
    reveal(Seq::filter);
    let f = scored::<T>(p.1.key());
    if s.len() == 0 {
        assert(s.filter(f) =~= s);
    } else {
        let init = s.drop_last();
        lemma_filter_keeps_count(init, p);
        init.to_multiset_ensures();
        init.filter(f).to_multiset_ensures();
        assert(s =~= init.push(s.last()));
    }
}

/// The texts of the numbers of a row, as they are to be printed.
#[derive(Debug)]
pub struct RowTexts {
    pub hold: String,
    pub over: String,
    pub commit: String,
    pub dynamic: String,
    pub w_energy: String,
    pub w_creep: String,
    pub win: String,
    pub fp: String,
    pub fnr: String,
    pub cost: String,
}

pub open spec fn row_text(
    rank: nat,
    member_energy: u32,
    t: RowTexts,
    gates_held: bool,
    fielded: u32,
) -> Seq<char> {
    "#"@ + left_set(decimal(rank + 1), 3) + " hold="@ + t.hold@ + " over="@ + t.over@
        + " mem_energy="@ + left_set(decimal(member_energy as nat), 5) + " commit="@ + t.commit@
        + " dyn="@ + t.dynamic@ + " w_e="@ + t.w_energy@ + " w_c="@ + t.w_creep@ + " | gates="@ + (
    if gates_held {
        "HELD"@
    } else {
        "FAIL"@
    }) + " win="@ + t.win@ + " fp="@ + t.fp@ + " fn="@ + t.fnr@ + " cost/win="@ + t.cost@
        + " fielded="@ + decimal(fielded as nat)
}

fn push_left_decimal(s: &mut String, n: u64, width: usize)
    ensures
        final(s)@ == old(s)@ + left_set(decimal(n as nat), width as int),
{
    let mut t: String = String::new();
    push_decimal(&mut t, n);
    assert(t@ =~= decimal(n as nat));
    push_left(s, t.as_str(), width);
}

/// One line of the ranked table.
pub fn format_row(
    rank: usize,
    member_energy: u32,
    t: &RowTexts,
    gates_held: bool,
    fielded: u32,
) -> (r: String)
    requires
        rank < usize::MAX,
    ensures
        r@ == row_text(rank as nat, member_energy, *t, gates_held, fielded),
{
    let mut s: String = String::from_str("#");
    push_left_decimal(&mut s, (rank + 1) as u64, 3);
    s.append(" hold=");
    s.append(t.hold.as_str());
    s.append(" over=");
    s.append(t.over.as_str());
    s.append(" mem_energy=");
    push_left_decimal(&mut s, member_energy as u64, 5);
    s.append(" commit=");
    s.append(t.commit.as_str());
    s.append(" dyn=");
    s.append(t.dynamic.as_str());
    s.append(" w_e=");
    s.append(t.w_energy.as_str());
    s.append(" w_c=");
    s.append(t.w_creep.as_str());
    s.append(" | gates=");
    s.append(
        if gates_held {
            "HELD"
        } else {
            "FAIL"
        },
    );
    s.append(" win=");
    s.append(t.win.as_str());
    s.append(" fp=");
    s.append(t.fp.as_str());
    s.append(" fn=");
    s.append(t.fnr.as_str());
    s.append(" cost/win=");
    s.append(t.cost.as_str());
    s.append(" fielded=");
    push_decimal(&mut s, fielded as u64);
    s
}

impl Regime {
    pub open spec fn spelled(self) -> Seq<char> {
        match self {
            Regime::Structure => "Structure"@,
            Regime::Creep => "Creep"@,
            Regime::Defended => "Defended"@,
            Regime::All => "All"@,
        }
    }

    pub fn name(self) -> (r: &'static str)
        ensures
            r@ == self.spelled(),
    {
        match self {
            Regime::Structure => "Structure",
            Regime::Creep => "Creep",
            Regime::Defended => "Defended",
            Regime::All => "All",
        }
    }
}

/// A point of a sweep: its score, and whether it is the standing set of parameters.
#[derive(Clone, Copy, Debug, PartialEq, Eq, Structural)]
pub struct SweepPoint {
    pub score: ParamScore,
    pub standing: bool,
}

/// The point holds the gates and is strictly better than the standing set.
pub open spec fn outdoes(p: SweepPoint, standing: ParamScore) -> bool {
    !p.standing && p.score.gates_held && !no_worse(standing.key(), p.score.key())
}

/// Whether any point that was tried is strictly better than the standing set.
pub fn any_beats(points: &Vec<SweepPoint>, standing: ParamScore) -> (r: bool)
    ensures
        r == exists|i: int| 0 <= i < points@.len() && outdoes(#[trigger] points@[i], standing),
{
    let key: (u8, u64, u64) = standing.winning_efficient_key();
    let mut i: usize = 0;
    while i < points.len()
        invariant
            i <= points@.len(),
            key == standing.key(),
            forall|k: int| 0 <= k < i ==> !outdoes(#[trigger] points@[k], standing),
        decreases points.len() - i,
    {
        let p: SweepPoint = points[i];
        if !p.standing && p.score.gates_held && !at_least(key, p.score.winning_efficient_key()) {
            assert(outdoes(points@[i as int], standing));
            return true;
        }
        i = i + 1;
    }
    false
}

/// A sweep comes to something: its best point holds the gates.
pub fn top_holds(ranked: &Vec<SweepPoint>) -> (r: bool)
    ensures
        r == (ranked@.len() > 0 && ranked@[0].score.gates_held),
{
    ranked.len() > 0 && ranked[0].score.gates_held
}

/// If the best point of a ranking fails the gates, every point does.
pub proof fn failing_top_fails_all<T>(s: Seq<(T, ParamScore)>, i: int)
    requires
        best_first(s),
        0 <= i < s.len(),
        !s[0].1.gates_held,
    ensures
        !s[i].1.gates_held,
{
    assert(no_worse(s[0].1.key(), s[i].1.key()));
}

/// Where a point is strictly better than the standing set, the best of the ranking is too.
pub proof fn beaten_standing_is_not_first<T>(s: Seq<(T, ParamScore)>, i: int, standing: ParamScore)
    requires
        best_first(s),
        0 <= i < s.len(),
        !no_worse(standing.key(), s[i].1.key()),
    ensures
        !no_worse(standing.key(), s[0].1.key()),
{
    assert(no_worse(s[0].1.key(), s[i].1.key()));
}

/// A line of the table: its text, and whether it is that of the standing set.
#[derive(Debug)]
pub struct TableLine {
    pub row: String,
    pub standing: bool,
}

pub open spec fn table_line(l: TableLine) -> Seq<char> {
    l.row@ + (if l.standing {
        "  <== Default"@
    } else {
        ""@
    }) + "\n"@
}

pub open spec fn table(s: Seq<TableLine>) -> Seq<char>
    decreases s.len(),
{
    if s.len() == 0 {
        seq![]
    } else {
        table(s.drop_last()) + table_line(s.last())
    }
}

/// What stands above the table: the size of the sweep, how it is ranked, the gates, the
/// standing set, and whether it was beaten.
pub open spec fn table_head(points: nat, regime: Regime, baseline: Seq<char>, beaten: bool) -> Seq<
    char,
> {
    "# CompositionParams sweep — "@ + decimal(points) + " points, regime="@ + regime.spelled()
        + "\n# ranked winning-but-efficient: gates-held, then win_rate DESC, then cost/win ASC\n# gates: FP<=0.01 AND FN<=0.2 AND acceptance defended bed Killed\n# Default baseline: "@
        + baseline + "\n# any swept point strictly beats Default: "@ + (if beaten {
        "true"@
    } else {
        "false"@
    }) + "\n#\n"@
}

fn push_table_line(out: &mut String, l: &TableLine)
    ensures
        final(out)@ == old(out)@ + table_line(*l),
{
    let ghost before = out@;
    out.append(l.row.as_str());
    out.append(
        if l.standing {
            "  <== Default"
        } else {
            ""
        },
    );
    out.append("\n");
    assert(out@ =~= before + table_line(*l));
}

/// The report of a sweep over `points` sets.
pub fn sweep_report(
    points: usize,
    regime: Regime,
    baseline: &str,
    beaten: bool,
    lines: &Vec<TableLine>,
) -> (r: String)
    ensures
        r@ == table_head(points as nat, regime, baseline@, beaten) + table(lines@),
{
    let mut out: String = String::from_str("# CompositionParams sweep — ");
    push_decimal(&mut out, points as u64);
    out.append(" points, regime=");
    out.append(regime.name());
    out.append(
        "\n# ranked winning-but-efficient: gates-held, then win_rate DESC, then cost/win ASC\n# gates: FP<=0.01 AND FN<=0.2 AND acceptance defended bed Killed\n# Default baseline: ",
    );
    out.append(baseline);
    out.append("\n# any swept point strictly beats Default: ");
    out.append(
        if beaten {
            "true"
        } else {
            "false"
        },
    );
    out.append("\n#\n");
    let ghost head = table_head(points as nat, regime, baseline@, beaten);
    assert(out@ =~= head);
    let mut i: usize = 0;
    assert(lines@.take(0) =~= seq![]);
    assert(out@ =~= head + table(lines@.take(0)));
    while i < lines.len()
        invariant
            i <= lines@.len(),
            out@ == head + table(lines@.take(i as int)),
        decreases lines.len() - i,
    {
        assert(lines@.take(i + 1).drop_last() =~= lines@.take(i as int));
        push_table_line(&mut out, &lines[i]);
        i = i + 1;
        assert(out@ =~= head + table(lines@.take(i as int)));
    }
    assert(lines@.take(i as int) =~= lines@);
    out
}

// ── What a sweep goes by ───────────────────────────────────────────────────

/// Every regime runs its own bed, and `all` runs every bed.
pub proof fn all_runs_every_bed(r: Regime)
    ensures
        r is All ==> r.has_structure() && r.has_creep() && r.has_defended(),
        r is Structure ==> r.has_structure() && !r.has_creep() && !r.has_defended(),
        r is Creep ==> !r.has_structure() && r.has_creep() && !r.has_defended(),
        r is Defended ==> !r.has_structure() && !r.has_creep() && r.has_defended(),
{
}

/// A regime is named by its own name, which is how it is spelled.
pub proof fn a_regime_is_named_as_spelled(r: Regime)
    ensures
        regime_named(r.spelled()) == Some(r),
{
    reveal_strlit("Structure");
    reveal_strlit("Creep");
    reveal_strlit("Defended");
    reveal_strlit("All");
    reveal_strlit("structure");
    reveal_strlit("creep");
    reveal_strlit("defended");
    reveal_strlit("all");
    let s = r.spelled();
    assert(!is_white(s[0]) && !is_white(s.last()));
    assert(trimmed_end(trimmed_start(s)) == s);
    let w = plain_word(s);
    match r {
        Regime::Structure => {
            assert(w =~= "structure"@);
        },
        Regime::Creep => {
            assert(w =~= "creep"@);
            assert(w.len() == 5);
        },
        Regime::Defended => {
            assert(w =~= "defended"@);
            assert(w.len() == 8);
        },
        Regime::All => {
            assert(w =~= "all"@);
            assert(w.len() == 3);
        },
    }
}

/// What a bed adds is counted exactly where the regime runs it: over all regimes the
/// structure and the creep bed add up, alone each counts for itself, and under the defended
/// regime nothing does.
pub proof fn beds_count_where_they_run(
    calib: Calibration,
    sizing: SizingWins,
    creep: CreepClearWins,
    outcomes: Seq<LifecycleOutcome>,
)
    requires
        sizing.winning_spawn_cost + creep.winning_spawn_cost <= u64::MAX,
    ensures
        ({
            let all = totals_of(Regime::All, calib, sizing, creep, outcomes);
            let st = totals_of(Regime::Structure, calib, sizing, creep, outcomes);
            let cr = totals_of(Regime::Creep, calib, sizing, creep, outcomes);
            let de = totals_of(Regime::Defended, calib, sizing, creep, outcomes);
            &&& st.won == sizing.won && st.attempted == sizing.attempted
            &&& st.winning_cost == sizing.winning_spawn_cost && st.fielded == calib.fielded
            &&& cr.won == creep.won && cr.attempted == creep.attempted
            &&& cr.winning_cost == creep.winning_spawn_cost && cr.fielded == 0
            &&& all.won == st.won + cr.won && all.attempted == st.attempted + cr.attempted
            &&& all.winning_cost == st.winning_cost + cr.winning_cost
            &&& all.fielded == calib.fielded
            &&& de.won == 0 && de.attempted == 0 && de.winning_cost == 0 && de.fielded == 0
        }),
{
}

/// The gates: the calibration's two always, and the acceptance kills where they are run; one
/// regime that did not end in a kill shuts them.
pub proof fn gates_need_every_kill(
    regime: Regime,
    calib: Calibration,
    sizing: SizingWins,
    creep: CreepClearWins,
    outcomes: Seq<LifecycleOutcome>,
    i: int,
)
    ensures
        ({
            let g = totals_of(regime, calib, sizing, creep, outcomes).gates_held;
            let calibrated = calib.false_positives * 100 <= calib.fielded && calib.false_negatives
                * 5 <= calib.deferred;
            &&& !calibrated ==> !g
            &&& (regime is All || regime is Defended) && 0 <= i < outcomes.len()
                && !(outcomes[i] is Killed) ==> !g
            &&& (regime is Structure || regime is Creep) ==> (g <==> calibrated)
            &&& calibrated && (forall|k: int|
                0 <= k < outcomes.len() ==> (#[trigger] outcomes[k]) is Killed) ==> g
        }),
{
}

/// Scores compare by the gates first, then by the wins, then by what a win costs, less being
/// better; no score is better than itself, and of any two one is no worse.
pub proof fn scores_compare_part_by_part(a: ParamScore, b: ParamScore)
    ensures
        a.gates_held && !b.gates_held ==> !no_worse(b.key(), a.key()),
        a.gates_held == b.gates_held && a.win_rate > b.win_rate ==> !no_worse(b.key(), a.key()),
        a.gates_held == b.gates_held && a.win_rate == b.win_rate && a.mean_spawn_cost_per_win
            < b.mean_spawn_cost_per_win ==> !no_worse(b.key(), a.key()),
        no_worse(a.key(), a.key()),
        no_worse(a.key(), b.key()) || no_worse(b.key(), a.key()),
{
}

/// A point outdoes the standing set only if it is another one, holds the gates, and is
/// strictly better.
pub proof fn a_point_outdoes_by_more(p: SweepPoint, standing: ParamScore)
    ensures
        p.standing ==> !outdoes(p, standing),
        !p.score.gates_held ==> !outdoes(p, standing),
        p.score.gates_held == standing.gates_held && p.score.win_rate == standing.win_rate
            && p.score.mean_spawn_cost_per_win == standing.mean_spawn_cost_per_win ==> !outdoes(
            p,
            standing,
        ),
        !p.standing && p.score.gates_held && !standing.gates_held ==> outdoes(p, standing),
        !p.standing && p.score.gates_held && standing.gates_held && p.score.win_rate
            > standing.win_rate ==> outdoes(p, standing),
        !p.standing && p.score.gates_held && standing.gates_held && p.score.win_rate
            == standing.win_rate && p.score.mean_spawn_cost_per_win
            < standing.mean_spawn_cost_per_win ==> outdoes(p, standing),
        standing.gates_held && p.score.win_rate < standing.win_rate ==> !outdoes(p, standing),
{
}

/// The bed that forces are formed in: four full homes of the highest capacity, haulers
/// spawned below the squad, four thousand ticks, and no renewal.
pub proof fn the_forming_bed_is_rich(slots: usize, f: ColonyFormingScenario, i: int)
    requires
        forming_bed(slots, f),
    ensures
        f.slots == slots,
        f.homes@.len() == 4,
        0 <= i < 4 ==> f.homes@[i].energy_capacity == 12_900 && f.homes@[i].start_energy
            == f.homes@[i].energy_capacity && f.homes@[i].income == 1000,
        f.per_member_cap == 12_900,
        f.budget_ticks == 4000 && f.member_ttl == 1500 && !f.renew,
        f.economy.miner is None,
        f.economy.hauler is Some && (f.economy.hauler->0).1 == 1000,
        (f.economy.hauler->0).0 == 0x4296_0000 && f.combat_priority == 0x42af_0000,
{
}

/// The table marks the standing set's line and no other; every line ends by itself.
pub proof fn the_table_marks_the_standing_set(s: Seq<TableLine>, l: TableLine)
    ensures
        l.standing ==> table(s.push(l)) == table(s) + (l.row@ + "  <== Default"@ + "\n"@),
        !l.standing ==> table(s.push(l)) == table(s) + (l.row@ + "\n"@),
        table(seq![]).len() == 0,
{
    reveal_strlit("");
    assert(s.push(l).drop_last() =~= s);
    assert(""@ =~= Seq::<char>::empty());
    assert(l.row@ + ""@ + "\n"@ =~= l.row@ + "\n"@);
}

/// The parts of a score's key: whether the gates held, the wins, and what is saved of the
/// dearest win.
pub proof fn a_key_shows_the_score(s: ParamScore)
    ensures
        s.gates_held ==> s.key().0 == 1,
        !s.gates_held ==> s.key().0 == 0,
        s.key().1 == s.win_rate,
        s.key().2 + s.mean_spawn_cost_per_win == u64::MAX,
{
}

/// A sweep calibrates on eighty bases.
pub proof fn a_sweep_calibrates_on_eighty_bases(n: int)
    ensures
        n < SWEEP_CALIBRATION_SCENARIOS <==> n < 80,
{
}

} // verus!
