//! Comparing movement settings by the fights that they lead to: seeded matchups,
//! who carries a squad's bid, when a fight is over, and the paired number sheet.

use crate::lanchester::{living_hp, place, Placed};
use crate::profile::{creep_dps, fighting, force_hits, lemma_total_bound, total};

use crate::terrain_import::{tile_index, CombatTerrain, TILES};
use crate::text::{decimal, push_decimal};
use crate::world::{CombatWorld, SimCreep};
use vstd::prelude::*;
use vstd::string::*;

verus! {

/// Energy of each creep of a matchup.
pub const ENERGY: u32 = 5_600;

/// The numeric lane's value of a normal and of a high priority.
pub const NORMAL_ANCHOR: i64 = 1_000_000;

pub const HIGH_ANCHOR: i64 = 2_000_000;

/// The value at stake, and the ticks to win it, of the fixed bid.
pub const BID_VALUE_E: i64 = 240_000;

pub const BID_EST_TICKS: i64 = 600;

/// Ticks on site, which is also what an unwinnable fight is taken to last.
pub const REAL_BID_ONSITE_TICKS: u32 = 600;

/// Ticks without movement after which a creep tries harder, step by step.
#[derive(Clone, Copy, Debug, PartialEq, Eq, Structural)]
pub struct StuckThresholds {
    pub avoid_friendly_creeps: u16,
    pub avoid_all_friendly_creeps: u16,
    pub increase_ops: u16,
    pub enable_shoving: u16,
    pub report_failure: u16,
    pub no_progress_repath: u16,
}

impl Default for StuckThresholds {
    fn default() -> (r: StuckThresholds)
        ensures
            r == default_thresholds(),
    {
        StuckThresholds {
            avoid_friendly_creeps: 2,
            avoid_all_friendly_creeps: 4,
            increase_ops: 5,
            enable_shoving: 7,
            report_failure: 12,
            no_progress_repath: 15,
        }
    }
}

pub open spec fn default_thresholds() -> StuckThresholds {
    StuckThresholds {
        avoid_friendly_creeps: 2,
        avoid_all_friendly_creeps: 4,
        increase_ops: 5,
        enable_shoving: 7,
        report_failure: 12,
        no_progress_repath: 15,
    }
}

/// A threshold in the ratio that it has by default to the first, rounded up, in
/// sixteen bits.
pub open spec fn in_ratio(v: u16, first: u16) -> u16 {
    ((v * first + 1) / 2 % 65536) as u16
}

pub open spec fn ladder_from(first: u16) -> StuckThresholds {
    let d = default_thresholds();
    let all = in_ratio(d.avoid_all_friendly_creeps, first);
    StuckThresholds {
        avoid_friendly_creeps: if first >= 1 {
            first
        } else {
            1
        },
        avoid_all_friendly_creeps: if all >= first + 1 {
            all
        } else {
            (first + 1) as u16
        },
        increase_ops: in_ratio(d.increase_ops, first),
        enable_shoving: in_ratio(d.enable_shoving, first),
        report_failure: in_ratio(d.report_failure, first),
        no_progress_repath: in_ratio(d.no_progress_repath, first),
    }
}

fn scaled(v: u16, first: u16) -> (r: u16)
    requires
        v <= 15,
    ensures
        r == in_ratio(v, first),
{
    let f: u32 = first as u32;
    let w: u32 = v as u32;
    assert(0 <= w * f <= 15 * 65535 && w * f == v * first) by (nonlinear_arith)
        requires
            0 <= w <= 15,
            0 <= f <= 65535,
            w == v,
            f == first,
    ;
    let n: u32 = (w * f + 1) / 2 % 65536;
    n as u16
}

/// Thresholds that start from a given first one and keep the default ratios.
pub fn ladder(avoid_friendly: u16) -> (r: StuckThresholds)
    requires
        avoid_friendly < u16::MAX,
    ensures
        r == ladder_from(avoid_friendly),
{
    let d: StuckThresholds = StuckThresholds::default();
    let all: u16 = scaled(d.avoid_all_friendly_creeps, avoid_friendly);
    let first: u16 = if avoid_friendly >= 1 {
        avoid_friendly
    } else {
        1
    };
    let second: u16 = if all >= avoid_friendly + 1 {
        all
    } else {
        avoid_friendly + 1
    };
    StuckThresholds {
        avoid_friendly_creeps: first,
        avoid_all_friendly_creeps: second,
        increase_ops: scaled(d.increase_ops, avoid_friendly),
        enable_shoving: scaled(d.enable_shoving, avoid_friendly),
        report_failure: scaled(d.report_failure, avoid_friendly),
        no_progress_repath: scaled(d.no_progress_repath, avoid_friendly),
    }
}

/// The default's own first threshold gives the default, and four times it gives four
/// times each.
pub proof fn ladder_keeps_the_ratios(k: u16)
    requires
        1 <= k <= 1000,
    ensures
        ladder_from(2) == default_thresholds(),
        ladder_from((2 * k) as u16) == (StuckThresholds {
            avoid_friendly_creeps: (2 * k) as u16,
            avoid_all_friendly_creeps: (4 * k) as u16,
            increase_ops: (5 * k) as u16,
            enable_shoving: (7 * k) as u16,
            report_failure: (12 * k) as u16,
            no_progress_repath: (15 * k) as u16,
        }),
{
}

/// Which priorities a matchup is run under.
#[derive(Clone, Copy, Debug, PartialEq, Eq, Structural)]
pub enum BidMode {
    EnumOnly,
    FixtureRO,
    RealRO,
}

/// The mode with fixed bids, or without any.
pub fn bid_mode(value_bids: bool) -> (r: BidMode)
    ensures
        r == if value_bids {
            BidMode::FixtureRO
        } else {
            BidMode::EnumOnly
        },
{
    if value_bids {
        BidMode::FixtureRO
    } else {
        BidMode::EnumOnly
    }
}

/// The fixed bid: a normal priority raised by the objective's rate.
pub fn binding_member_bid() -> (r: i64)
    ensures
        r == NORMAL_ANCHOR + (BID_VALUE_E * 1000) / (BID_EST_TICKS as int),
        r == 1_400_000,
{
    NORMAL_ANCHOR + (BID_VALUE_E * 1000) / BID_EST_TICKS
}

pub open spec fn clamped_rate(milli: i64) -> int {
    if milli < 1 {
        1
    } else if milli > 999_999 {
        999_999
    } else {
        milli as int
    }
}

/// A bid from a rate in thousandths, kept between a normal and a high priority.
pub fn real_bid(milli: i64) -> (r: i64)
    ensures
        r == NORMAL_ANCHOR + clamped_rate(milli),
        NORMAL_ANCHOR < r < HIGH_ANCHOR,
        1 <= milli <= 999_999 ==> r == 1_000_000 + milli,
        milli < 1 ==> r == 1_000_001,
        milli > 999_999 ==> r == HIGH_ANCHOR - 1,
{
    let c: i64 = if milli < 1 {
        1
    } else if milli > 999_999 {
        999_999
    } else {
        milli
    };
    NORMAL_ANCHOR + c
}

/// Ticks that a bid's rate is spread over.
pub fn bid_ticks(winnable: bool, est_ticks: u32) -> (r: u32)
    ensures
        r == if !winnable {
            REAL_BID_ONSITE_TICKS
        } else if est_ticks >= 1 {
            est_ticks
        } else {
            1
        },
        r > 0,
        !winnable ==> r == 600,
        winnable ==> r == est_ticks || est_ticks == 0 && r == 1,
{
    if !winnable {
        REAL_BID_ONSITE_TICKS
    } else if est_ticks >= 1 {
        est_ticks
    } else {
        1
    }
}

/// The first living creep with an id.
pub open spec fn living_with(s: Seq<SimCreep>, id: u32) -> Option<SimCreep>
    decreases s.len(),
{
    if s.len() == 0 {
        None
    } else {
        match living_with(s.drop_last(), id) {
            Some(c) => Some(c),
            None => if s.last().id == id && s.last().alive() {
                Some(s.last())
            } else {
                None
            },
        }
    }
}

/// Among the first `n` ids, the living creep that deals most damage; of several the
/// one with the lowest id.
pub open spec fn binding_of(s: Seq<SimCreep>, ids: Seq<u32>, n: int) -> Option<(int, u32)>
    decreases n,
{
    if n <= 0 {
        None
    } else {
        let before = binding_of(s, ids, n - 1);
        match living_with(s, ids[n - 1]) {
            None => before,
            Some(c) => match before {
                Some(b) if !(creep_dps(c) > b.0 || (creep_dps(c) == b.0 && ids[n - 1] < b.1)) =>
                    before,
                _ => Some((creep_dps(c), ids[n - 1])),
            },
        }
    }
}

/// The living creeps with these ids, in order of the ids.
pub open spec fn living_among(s: Seq<SimCreep>, ids: Seq<u32>, n: int) -> Seq<SimCreep>
    decreases n,
{
    if n <= 0 {
        seq![]
    } else {
        match living_with(s, ids[n - 1]) {
            Some(c) => living_among(s, ids, n - 1).push(c),
            None => living_among(s, ids, n - 1),
        }
    }
}

/// No living member deals more damage than the one that carries the bid.
pub proof fn binding_member_deals_most(s: Seq<SimCreep>, ids: Seq<u32>, n: int, i: int)
    requires
        0 <= i < n <= ids.len(),
        living_with(s, ids[i]) is Some,
    ensures
        binding_of(s, ids, n) matches Some(b) && b.0 >= creep_dps(living_with(s, ids[i])->0),
    decreases n,
{
    if i < n - 1 {
        binding_member_deals_most(s, ids, n - 1, i);
    }
}

pub(crate) fn find_living(s: &Vec<SimCreep>, id: u32) -> (r: Option<SimCreep>)
    ensures
        r == living_with(s@, id),
{
    let mut found: Option<SimCreep> = None;
    let mut i: usize = 0;
    assert(s@.take(0) =~= Seq::<SimCreep>::empty());
    while i < s.len()
        invariant
            i <= s@.len(),
            found == living_with(s@.take(i as int), id),
        decreases s.len() - i,
    {
        assert(s@.take(i as int + 1).drop_last() =~= s@.take(i as int));
        if found.is_none() && s[i].id == id && s[i].is_alive() {
            found = Some(s[i]);
        }
        i = i + 1;
    }
    assert(s@.take(i as int) =~= s@);
    found
}

/// The member that carries a squad's bid.
pub fn binding_member(world: &CombatWorld, ids: &Vec<u32>) -> (r: Option<u32>)
    ensures
        r == match binding_of(world.creeps@, ids@, ids@.len() as int) {
            Some(b) => Some(b.1),
            None => None,
        },
{
    let mut best: Option<(u64, u32)> = None;
    let mut i: usize = 0;
    while i < ids.len()
        invariant
            i <= ids@.len(),
            binding_of(world.creeps@, ids@, i as int) == match best {
                Some(b) => Some((b.0 as int, b.1)),
                None => None,
            },
        decreases ids.len() - i,
    {
        let id: u32 = ids[i];
        if let Some(c) = find_living(&world.creeps, id) {
            let power: u64 = c.attack_power as u64 + c.ranged_attack_power as u64;
            let keep: bool = match best {
                Some(b) => !(power > b.0 || (power == b.0 && id < b.1)),
                None => false,
            };
            if !keep {
                best = Some((power, id));
            }
        }
        i = i + 1;
    }
    match best {
        Some(b) => Some(b.1),
        None => None,
    }
}

/// What a real bid is computed from: a squad's heal, damage and toughest member, and
/// the opponent's damage and hits.
#[derive(Clone, Copy, Debug, PartialEq, Eq, Structural)]
pub struct BidInputs {
    pub fielded_heal: u32,
    pub own_dps: u32,
    pub tank_hp: u32,
    pub enemy_dps: u32,
    pub enemy_hp: u32,
}

pub open spec fn sum_heal(s: Seq<SimCreep>) -> int {
    total(Seq::new(s.len(), |i: int| s[i].heal_power as int))
}

pub open spec fn sum_dps(s: Seq<SimCreep>) -> int {
    total(Seq::new(s.len(), |i: int| creep_dps(s[i])))
}

pub open spec fn most_hits(s: Seq<SimCreep>) -> u32
    decreases s.len(),
{
    if s.len() == 0 {
        0
    } else {
        let before = most_hits(s.drop_last());
        if s.last().hits > before {
            s.last().hits
        } else {
            before
        }
    }
}

/// The sums of a squad fit their types.
pub open spec fn squad_fits(s: Seq<SimCreep>) -> bool {
    sum_heal(s) <= u32::MAX && sum_dps(s) <= u32::MAX && force_hits(s) <= u32::MAX
}

pub open spec fn inputs_of(own: Seq<SimCreep>, enemy: Seq<SimCreep>) -> BidInputs {
    BidInputs {
        fielded_heal: sum_heal(own) as u32,
        own_dps: sum_dps(own) as u32,
        tank_hp: most_hits(own),
        enemy_dps: sum_dps(enemy) as u32,
        enemy_hp: force_hits(enemy) as u32,
    }
}

fn list_living(world: &CombatWorld, ids: &Vec<u32>) -> (r: Vec<SimCreep>)
    ensures
        r@ == living_among(world.creeps@, ids@, ids@.len() as int),
{
    let mut out: Vec<SimCreep> = Vec::new();
    let mut i: usize = 0;
    while i < ids.len()
        invariant
            i <= ids@.len(),
            out@ == living_among(world.creeps@, ids@, i as int),
        decreases ids.len() - i,
    {
        if let Some(c) = find_living(&world.creeps, ids[i]) {
            out.push(c);
        }
        i = i + 1;
    }
    out
}

/// Heal, damage, hits and toughest member of a squad.
fn squad_sums(s: &Vec<SimCreep>) -> (r: (u32, u32, u32, u32))
    requires
        squad_fits(s@),
    ensures
        r.0 == sum_heal(s@),
        r.1 == sum_dps(s@),
        r.2 == force_hits(s@),
        r.3 == most_hits(s@),
{
    let ghost h = Seq::new(s@.len(), |i: int| s@[i].heal_power as int);
    let ghost d = Seq::new(s@.len(), |i: int| creep_dps(s@[i]));
    let ghost t = Seq::new(s@.len(), |i: int| s@[i].hits as int);
    let mut heal: u32 = 0;
    let mut dps: u32 = 0;
    let mut hits: u32 = 0;
    let mut most: u32 = 0;
    let mut i: usize = 0;
    assert(d.take(0) =~= Seq::<int>::empty());
    assert(h.take(0) =~= Seq::<int>::empty());
    assert(t.take(0) =~= Seq::<int>::empty());
    assert(s@.take(0) =~= Seq::<SimCreep>::empty());
    while i < s.len()
        invariant
            i <= s@.len(),
            h == Seq::new(s@.len(), |k: int| s@[k].heal_power as int),
            d == Seq::new(s@.len(), |k: int| creep_dps(s@[k])),
            t == Seq::new(s@.len(), |k: int| s@[k].hits as int),
            total(h) <= u32::MAX,
            total(d) <= u32::MAX,
            total(t) <= u32::MAX,
            heal == total(h.take(i as int)),
            dps == total(d.take(i as int)),
            hits == total(t.take(i as int)),
            most == most_hits(s@.take(i as int)),
        decreases s.len() - i,
    {
        proof {
            assert(d.take(i as int + 1).drop_last() =~= d.take(i as int));
            assert(h.take(i as int + 1).drop_last() =~= h.take(i as int));
            assert(t.take(i as int + 1).drop_last() =~= t.take(i as int));
            assert(s@.take(i as int + 1).drop_last() =~= s@.take(i as int));
            lemma_total_bound(d, i as int + 1);
            lemma_total_bound(h, i as int + 1);
            lemma_total_bound(t, i as int + 1);
            lemma_total_bound(d, i as int);
        }
        let c: SimCreep = s[i];
        heal = heal + c.heal_power;
        dps = dps + c.attack_power + c.ranged_attack_power;
        hits = hits + c.hits;
        if c.hits > most {
            most = c.hits;
        }
        i = i + 1;
    }
    assert(d.take(i as int) =~= d);
    assert(h.take(i as int) =~= h);
    assert(t.take(i as int) =~= t);
    assert(s@.take(i as int) =~= s@);
    (heal, dps, hits, most)
}

/// What a real bid is computed from.
pub fn bid_inputs(world: &CombatWorld, own: &Vec<u32>, enemy: &Vec<u32>) -> (r: BidInputs)
    requires
        squad_fits(living_among(world.creeps@, own@, own@.len() as int)),
        squad_fits(living_among(world.creeps@, enemy@, enemy@.len() as int)),
    ensures
        r == inputs_of(
            living_among(world.creeps@, own@, own@.len() as int),
            living_among(world.creeps@, enemy@, enemy@.len() as int),
        ),
{
    let a: (u32, u32, u32, u32) = squad_sums(&list_living(world, own));
    let b: (u32, u32, u32, u32) = squad_sums(&list_living(world, enemy));
    BidInputs { fielded_heal: a.0, own_dps: a.1, tank_hp: a.3, enemy_dps: b.1, enemy_hp: b.2 }
}

/// The bid that a mode gives the binding member, `rate` being the real rate in thousandths.
pub open spec fn mode_bid(mode: BidMode, rate: i64) -> Option<int> {
    match mode {
        BidMode::EnumOnly => None,
        BidMode::FixtureRO => Some(1_400_000),
        BidMode::RealRO => Some(NORMAL_ANCHOR + clamped_rate(rate)),
    }
}

/// A squad's bids: its binding member's, under a mode that bids at all.
pub fn bids(mode: BidMode, world: &CombatWorld, own: &Vec<u32>, rate: i64) -> (r: Vec<(u32, i64)>)
    ensures
        match (binding_of(world.creeps@, own@, own@.len() as int), mode_bid(mode, rate)) {
            (Some(b), Some(bid)) => r@.len() == 1 && r@[0].0 == b.1 && r@[0].1 == bid,
            _ => r@.len() == 0,
        },
{
    let mut out: Vec<(u32, i64)> = Vec::new();
    let bid: i64 = match mode {
        BidMode::EnumOnly => {
            return out;
        },
        BidMode::FixtureRO => binding_member_bid(),
        BidMode::RealRO => real_bid(rate),
    };
    if let Some(id) = binding_member(world, own) {
        out.push((id, bid));
    }
    out
}

/// The wall of a pinch: one column, open for three rows.
pub open spec fn pinch_wall(i: int) -> bool {
    i % 50 == 25 && !(24 <= i / 50 <= 26)
}

/// The ground of a matchup: odd seeds have a pinch, even ones are open.
pub fn matchup_terrain(seed: u32) -> (t: CombatTerrain)
    ensures
        t@.wf(),
        forall|i: int| 0 <= i < TILES ==> #[trigger] t@.walls[i] == (seed % 2 == 1 && pinch_wall(i)),
        forall|i: int| 0 <= i < TILES ==> !(#[trigger] t@.swamps[i]),
{
    let mut t: CombatTerrain = CombatTerrain::open_room();
    if seed % 2 == 1 {
        let mut y: u8 = 0;
        while y < 50
            invariant
                y <= 50,
                t@.wf(),
                forall|i: int|
                    0 <= i < TILES ==> #[trigger] t@.walls[i] == (pinch_wall(i) && i / 50 < y),
                forall|i: int| 0 <= i < TILES ==> !(#[trigger] t@.swamps[i]),
            decreases 50 - y,
        {
            let ghost before = t@.walls;
            if !(24 <= y && y <= 26) {
                t.set_wall(25, y, true);
            }
            assert forall|i: int| 0 <= i < TILES implies #[trigger] t@.walls[i] == (pinch_wall(i)
                && i / 50 < y + 1) by {
                assert(before[i] == (pinch_wall(i) && i / 50 < y));
                if i == tile_index(25, y as int) {
                    assert(i / 50 == y && i % 50 == 25);
                } else if i / 50 == y {
                    assert(i % 50 != 25);
                }
            }
            y = y + 1;
        }
    }
    t
}

/// The two files of a matchup, facing each other.
pub fn matchup_files(n_a: usize, n_b: usize) -> (r: (Vec<Placed>, Vec<Placed>))
    requires
        n_a <= 6,
        n_b <= 6,
    ensures
        r.0@ == Seq::new(n_a as nat, |i: int| crate::lanchester::placed_at(0, 1, 8, 22, i)),
        r.1@ == Seq::new(n_b as nat, |i: int| crate::lanchester::placed_at(1, 1000, 41, 22, i)),
{
    (place(0, 1, n_a, 8, 22), place(1, 1000, n_b, 41, 22))
}

/// How a matchup ended.
#[derive(Clone, Copy, Debug, PartialEq, Eq, Structural)]
pub struct MatchupOutcome {
    /// A side was wiped within the cap.
    pub decided: bool,
    /// The sign of the net hits: 1 for the first side, -1 for the second.
    pub winner: i8,
    /// Ticks to the wipe, or the cap.
    pub ticks: u32,
    /// The first tick in which hits were lost.
    pub first_blood: Option<u32>,
    pub net_hp: i64,
    /// Hits lost on both sides.
    pub damage_traded: u32,
}

/// A matchup in progress.
#[derive(Clone, Copy, Debug, PartialEq, Eq, Structural)]
pub struct MatchupRun {
    pub tick_cap: u32,
    pub tick: u32,
    pub start_hp: u32,
    pub first_blood: Option<u32>,
}

/// The hits of the two sides fit together.
pub open spec fn hp_fits(w: CombatWorld) -> bool {
    &&& 0 <= side_hp(w, 0)
    &&& 0 <= side_hp(w, 1)
    &&& side_hp(w, 0) + side_hp(w, 1) <= u32::MAX
}

pub open spec fn side_hp(w: CombatWorld, owner: u32) -> int {
    force_hits(w.creeps@.filter(fighting(owner)))
}

pub open spec fn net_sign(net: int) -> i8 {
    if net > 0 {
        1i8
    } else if net < 0 {
        (-1i8) as i8
    } else {
        0i8
    }
}

impl MatchupRun {
    pub open spec fn wf(self) -> bool {
        self.tick < self.tick_cap
    }

    pub open spec fn outcome(self, hp0: int, hp1: int, decided: bool, ticks: u32) -> MatchupOutcome {
        MatchupOutcome {
            decided,
            winner: net_sign(hp0 - hp1),
            ticks,
            first_blood: self.first_blood,
            net_hp: (hp0 - hp1) as i64,
            damage_traded: if self.start_hp >= hp0 + hp1 {
                (self.start_hp - (hp0 + hp1)) as u32
            } else {
                0
            },
        }
    }

    /// The run after a tick that left the two sides these hits, and its outcome if it
    /// is over.
    pub open spec fn ticked(self, hp0: int, hp1: int) -> (MatchupRun, Option<MatchupOutcome>) {
        let bled = MatchupRun {
            first_blood: if self.first_blood is None && hp0 + hp1 < self.start_hp {
                Some(self.tick)
            } else {
                self.first_blood
            },
            ..self
        };
        if hp0 == 0 || hp1 == 0 {
            (bled, Some(bled.outcome(hp0, hp1, true, (self.tick + 1) as u32)))
        } else if self.tick + 1 >= self.tick_cap {
            (bled, Some(bled.outcome(hp0, hp1, false, self.tick_cap)))
        } else {
            (MatchupRun { tick: (self.tick + 1) as u32, ..bled }, None)
        }
    }

    /// A matchup before its first tick; with a cap of none it is over.
    pub fn start(world: &CombatWorld, tick_cap: u32) -> (r: (MatchupRun, Option<MatchupOutcome>))
        requires
            hp_fits(*world),
        ensures
            r.0 == (MatchupRun {
                tick_cap,
                tick: 0,
                start_hp: (side_hp(*world, 0) + side_hp(*world, 1)) as u32,
                first_blood: None,
            }),
            r.1 is Some <==> tick_cap == 0,
            r.1 matches Some(o) ==> o == r.0.outcome(
                side_hp(*world, 0),
                side_hp(*world, 1),
                false,
                0,
            ),
    {
        let hp0: i64 = living_hp(world, 0);
        let hp1: i64 = living_hp(world, 1);
        let run = MatchupRun {
            tick_cap,
            tick: 0,
            start_hp: (hp0 + hp1) as u32,
            first_blood: None,
        };
        if tick_cap == 0 {
            let o: MatchupOutcome = run.finish(hp0, hp1, false, 0);
            (run, Some(o))
        } else {
            (run, None)
        }
    }

    fn finish(&self, hp0: i64, hp1: i64, decided: bool, ticks: u32) -> (o: MatchupOutcome)
        requires
            0 <= hp0,
            0 <= hp1,
            hp0 + hp1 <= u32::MAX,
        ensures
            o == self.outcome(hp0 as int, hp1 as int, decided, ticks),
    {
        let net: i64 = hp0 - hp1;
        let winner: i8 = if net > 0 {
            1
        } else if net < 0 {
            -1
        } else {
            0
        };
        let left: u32 = (hp0 + hp1) as u32;
        let damage_traded: u32 = if self.start_hp >= left {
            self.start_hp - left
        } else {
            0
        };
        MatchupOutcome {
            decided,
            winner,
            ticks,
            first_blood: self.first_blood,
            net_hp: net,
            damage_traded,
        }
    }

    /// Takes the world that a tick left. The matchup is over when a side is wiped or
    /// the cap is reached.
    pub fn next(&mut self, world: &CombatWorld) -> (r: Option<MatchupOutcome>)
        requires
            old(self).wf(),
            hp_fits(*world),
        ensures
            (*final(self), r) == old(self).ticked(side_hp(*world, 0), side_hp(*world, 1)),
            r is None ==> final(self).wf(),
    {
        let hp0: i64 = living_hp(world, 0);
        let hp1: i64 = living_hp(world, 1);
        if self.first_blood.is_none() && hp0 + hp1 < self.start_hp as i64 {
            self.first_blood = Some(self.tick);
        }
        if hp0 == 0 || hp1 == 0 {
            return Some(self.finish(hp0, hp1, true, self.tick + 1));
        }
        if self.tick + 1 >= self.tick_cap {
            return Some(self.finish(hp0, hp1, false, self.tick_cap));
        }
        self.tick = self.tick + 1;
        None
    }
}

/// A matchup ends within its cap, and an outcome counts as decided exactly when a
/// side is wiped.
pub proof fn matchup_ends_within_its_cap(run: MatchupRun, hp0: int, hp1: int)
    requires
        run.wf(),
    ensures
        run.ticked(hp0, hp1).1 matches Some(o) ==> o.ticks <= run.tick_cap && (o.decided <==> hp0
            == 0 || hp1 == 0),
        run.tick + 1 == run.tick_cap ==> run.ticked(hp0, hp1).1 is Some,
{
}

/// The paired number sheet of two settings over the same seeds.
#[derive(Clone, Copy, Debug, Default)]
pub struct Comparison {
    pub seeds: u32,
    pub decided: (u32, u32),
    pub side0_wins: (u32, u32),
    /// Seeds whose winner differs.
    pub flipped: u32,
    /// Ticks over the seeds that both decided.
    pub paired_ticks: (u64, u64),
    pub both_decided: u32,
    /// First-blood ticks over the seeds in which both drew blood.
    pub paired_first_blood: (u64, u64),
    pub both_bled: u32,
    /// Damage over all seeds.
    pub damage: (u64, u64),
}

pub open spec fn one_if(b: bool) -> int {
    if b {
        1
    } else {
        0
    }
}

/// Some quantity of each seed, added up over the first `n`.
pub open spec fn summed(f: spec_fn(int) -> int, n: int) -> int
    decreases n,
{
    if n <= 0 {
        0
    } else {
        summed(f, n - 1) + f(n - 1)
    }
}

pub open spec fn both_decided(a: MatchupOutcome, b: MatchupOutcome) -> bool {
    a.decided && b.decided
}

pub open spec fn both_bled(a: MatchupOutcome, b: MatchupOutcome) -> bool {
    a.first_blood is Some && b.first_blood is Some
}

pub open spec fn blood(a: MatchupOutcome, b: MatchupOutcome, x: MatchupOutcome) -> int {
    if both_bled(a, b) {
        x.first_blood->0 as int
    } else {
        0
    }
}

pub open spec fn paired(a: MatchupOutcome, b: MatchupOutcome, x: MatchupOutcome) -> int {
    if both_decided(a, b) {
        x.ticks as int
    } else {
        0
    }
}

/// The sheet over the first `n` seeds.
pub open spec fn is_comparison(
    c: Comparison,
    a: Seq<MatchupOutcome>,
    b: Seq<MatchupOutcome>,
    n: int,
) -> bool {
    &&& c.decided.0 == summed(|i: int| one_if(a[i].decided), n)
    &&& c.decided.1 == summed(|i: int| one_if(b[i].decided), n)
    &&& c.side0_wins.0 == summed(|i: int| one_if(a[i].winner > 0), n)
    &&& c.side0_wins.1 == summed(|i: int| one_if(b[i].winner > 0), n)
    &&& c.flipped == summed(|i: int| one_if(a[i].winner != b[i].winner), n)
    &&& c.both_decided == summed(|i: int| one_if(both_decided(a[i], b[i])), n)
    &&& c.paired_ticks.0 == summed(|i: int| paired(a[i], b[i], a[i]), n)
    &&& c.paired_ticks.1 == summed(|i: int| paired(a[i], b[i], b[i]), n)
    &&& c.both_bled == summed(|i: int| one_if(both_bled(a[i], b[i])), n)
    &&& c.paired_first_blood.0 == summed(|i: int| blood(a[i], b[i], a[i]), n)
    &&& c.paired_first_blood.1 == summed(|i: int| blood(a[i], b[i], b[i]), n)
    &&& c.damage.0 == summed(|i: int| a[i].damage_traded as int, n)
    &&& c.damage.1 == summed(|i: int| b[i].damage_traded as int, n)
}

/// The sums over the first `n` seeds are within what `n` seeds can add up to.
pub open spec fn bounded(c: Comparison, n: int) -> bool {
    &&& c.decided.0 <= n && c.decided.1 <= n
    &&& c.side0_wins.0 <= n && c.side0_wins.1 <= n
    &&& c.flipped <= n && c.both_decided <= n && c.both_bled <= n
    &&& c.paired_ticks.0 <= n * 0xffff_ffff && c.paired_ticks.1 <= n * 0xffff_ffff
    &&& c.paired_first_blood.0 <= n * 0xffff_ffff && c.paired_first_blood.1 <= n * 0xffff_ffff
    &&& c.damage.0 <= n * 0xffff_ffff && c.damage.1 <= n * 0xffff_ffff
}

fn flag(b: bool) -> (r: u32)
    ensures
        r == one_if(b),
        r <= 1,
{
    if b {
        1
    } else {
        0
    }
}

fn add_seed(c: &mut Comparison, oa: MatchupOutcome, ob: MatchupOutcome, Ghost(n): Ghost<int>)
    requires
        0 <= n < u32::MAX,
        bounded(*old(c), n),
    ensures
        bounded(*final(c), n + 1),
        final(c).seeds == old(c).seeds,
        final(c).decided.0 == old(c).decided.0 + one_if(oa.decided),
        final(c).decided.1 == old(c).decided.1 + one_if(ob.decided),
        final(c).side0_wins.0 == old(c).side0_wins.0 + one_if(oa.winner > 0),
        final(c).side0_wins.1 == old(c).side0_wins.1 + one_if(ob.winner > 0),
        final(c).flipped == old(c).flipped + one_if(oa.winner != ob.winner),
        final(c).both_decided == old(c).both_decided + one_if(both_decided(oa, ob)),
        final(c).paired_ticks.0 == old(c).paired_ticks.0 + paired(oa, ob, oa),
        final(c).paired_ticks.1 == old(c).paired_ticks.1 + paired(oa, ob, ob),
        final(c).both_bled == old(c).both_bled + one_if(both_bled(oa, ob)),
        final(c).paired_first_blood.0 == old(c).paired_first_blood.0 + blood(oa, ob, oa),
        final(c).paired_first_blood.1 == old(c).paired_first_blood.1 + blood(oa, ob, ob),
        final(c).damage.0 == old(c).damage.0 + oa.damage_traded,
        final(c).damage.1 == old(c).damage.1 + ob.damage_traded,
{
    c.decided.0 = c.decided.0 + flag(oa.decided);
    c.decided.1 = c.decided.1 + flag(ob.decided);
    c.side0_wins.0 = c.side0_wins.0 + flag(oa.winner > 0);
    c.side0_wins.1 = c.side0_wins.1 + flag(ob.winner > 0);
    c.flipped = c.flipped + flag(oa.winner != ob.winner);
    if oa.decided && ob.decided {
        c.both_decided = c.both_decided + 1;
        c.paired_ticks.0 = c.paired_ticks.0 + oa.ticks as u64;
        c.paired_ticks.1 = c.paired_ticks.1 + ob.ticks as u64;
    }
    if let (Some(fa), Some(fb)) = (oa.first_blood, ob.first_blood) {
        c.both_bled = c.both_bled + 1;
        c.paired_first_blood.0 = c.paired_first_blood.0 + fa as u64;
        c.paired_first_blood.1 = c.paired_first_blood.1 + fb as u64;
    }
    c.damage.0 = c.damage.0 + oa.damage_traded as u64;
    c.damage.1 = c.damage.1 + ob.damage_traded as u64;
}

/// Compares two settings seed by seed.
pub fn compare(a: &Vec<MatchupOutcome>, b: &Vec<MatchupOutcome>) -> (c: Comparison)
    requires
        a@.len() == b@.len(),
        a@.len() <= u32::MAX,
    ensures
        c.seeds == a@.len(),
        is_comparison(c, a@, b@, a@.len() as int),
        bounded(c, a@.len() as int),
{
    let mut c = Comparison {
        seeds: a.len() as u32,
        decided: (0, 0),
        side0_wins: (0, 0),
        flipped: 0,
        paired_ticks: (0, 0),
        both_decided: 0,
        paired_first_blood: (0, 0),
        both_bled: 0,
        damage: (0, 0),
    };
    let mut i: usize = 0;
    while i < a.len()
        invariant
            i <= a@.len(),
            a@.len() == b@.len(),
            a@.len() <= u32::MAX,
            c.seeds == a@.len(),
            is_comparison(c, a@, b@, i as int),
            bounded(c, i as int),
        decreases a.len() - i,
    {
        add_seed(&mut c, a[i], b[i], Ghost(i as int));
        i = i + 1;
    }
    c
}

/// A setting compared with itself flips nothing.
pub proof fn self_comparison_is_even(c: Comparison, a: Seq<MatchupOutcome>)
    requires
        is_sheet(c, a, a),
    ensures
        c.seeds == a.len(),
        c.flipped == 0,
        c.decided.0 == c.decided.1,
        c.side0_wins.0 == c.side0_wins.1,
        c.paired_ticks.0 == c.paired_ticks.1,
        c.paired_first_blood.0 == c.paired_first_blood.1,
        c.damage.0 == c.damage.1,
        c.both_decided == c.decided.0,
{
    lemma_summed_same(
        |i: int| one_if(a[i].winner != a[i].winner),
        |i: int| 0int,
        a.len() as int,
    );
    lemma_summed_zero(a.len() as int);
    lemma_summed_same(
        |i: int| one_if(both_decided(a[i], a[i])),
        |i: int| one_if(a[i].decided),
        a.len() as int,
    );
}

/// The sheet over all seeds.
pub open spec fn is_sheet(c: Comparison, a: Seq<MatchupOutcome>, b: Seq<MatchupOutcome>) -> bool {
    c.seeds == a.len() && is_comparison(c, a, b, a.len() as int)
}

/// The sheet with its two settings exchanged.
pub open spec fn exchanged(c: Comparison) -> Comparison {
    Comparison {
        decided: (c.decided.1, c.decided.0),
        side0_wins: (c.side0_wins.1, c.side0_wins.0),
        paired_ticks: (c.paired_ticks.1, c.paired_ticks.0),
        paired_first_blood: (c.paired_first_blood.1, c.paired_first_blood.0),
        damage: (c.damage.1, c.damage.0),
        ..c
    }
}

/// Comparing the other way round exchanges every pair and changes nothing else.
pub proof fn comparison_is_symmetric(
    x: Comparison,
    y: Comparison,
    a: Seq<MatchupOutcome>,
    b: Seq<MatchupOutcome>,
)
    requires
        a.len() == b.len(),
        is_sheet(x, a, b),
        is_sheet(y, b, a),
    ensures
        y == exchanged(x),
{
    let n = a.len() as int;
    lemma_summed_same(
        |i: int| one_if(b[i].decided),
        |i: int| one_if(b[i].decided),
        n,
    );
    lemma_summed_same(
        |i: int| one_if(a[i].decided),
        |i: int| one_if(a[i].decided),
        n,
    );
    lemma_summed_same(
        |i: int| one_if(b[i].winner > 0),
        |i: int| one_if(b[i].winner > 0),
        n,
    );
    lemma_summed_same(
        |i: int| one_if(a[i].winner > 0),
        |i: int| one_if(a[i].winner > 0),
        n,
    );
    lemma_summed_same(
        |i: int| one_if(b[i].winner != a[i].winner),
        |i: int| one_if(a[i].winner != b[i].winner),
        n,
    );
    lemma_summed_same(
        |i: int| one_if(both_decided(b[i], a[i])),
        |i: int| one_if(both_decided(a[i], b[i])),
        n,
    );
    lemma_summed_same(
        |i: int| paired(b[i], a[i], b[i]),
        |i: int| paired(a[i], b[i], b[i]),
        n,
    );
    lemma_summed_same(
        |i: int| paired(b[i], a[i], a[i]),
        |i: int| paired(a[i], b[i], a[i]),
        n,
    );
    lemma_summed_same(
        |i: int| one_if(both_bled(b[i], a[i])),
        |i: int| one_if(both_bled(a[i], b[i])),
        n,
    );
    lemma_summed_same(
        |i: int| blood(b[i], a[i], b[i]),
        |i: int| blood(a[i], b[i], b[i]),
        n,
    );
    lemma_summed_same(
        |i: int| blood(b[i], a[i], a[i]),
        |i: int| blood(a[i], b[i], a[i]),
        n,
    );
    lemma_summed_same(
        |i: int| b[i].damage_traded as int,
        |i: int| b[i].damage_traded as int,
        n,
    );
    lemma_summed_same(
        |i: int| a[i].damage_traded as int,
        |i: int| a[i].damage_traded as int,
        n,
    );
}

/// No seeds, no numbers.
pub proof fn empty_comparison_is_zero(c: Comparison)
    requires
        is_sheet(c, seq![], seq![]),
    ensures
        c == (Comparison {
            seeds: 0,
            decided: (0, 0),
            side0_wins: (0, 0),
            flipped: 0,
            paired_ticks: (0, 0),
            both_decided: 0,
            paired_first_blood: (0, 0),
            both_bled: 0,
            damage: (0, 0),
        }),
{
}

/// `z` is `x` and `y` added up field by field.
pub open spec fn is_sum_of(z: Comparison, x: Comparison, y: Comparison) -> bool {
    &&& z.seeds == x.seeds + y.seeds
    &&& z.decided.0 == x.decided.0 + y.decided.0
    &&& z.decided.1 == x.decided.1 + y.decided.1
    &&& z.side0_wins.0 == x.side0_wins.0 + y.side0_wins.0
    &&& z.side0_wins.1 == x.side0_wins.1 + y.side0_wins.1
    &&& z.flipped == x.flipped + y.flipped
    &&& z.both_decided == x.both_decided + y.both_decided
    &&& z.paired_ticks.0 == x.paired_ticks.0 + y.paired_ticks.0
    &&& z.paired_ticks.1 == x.paired_ticks.1 + y.paired_ticks.1
    &&& z.both_bled == x.both_bled + y.both_bled
    &&& z.paired_first_blood.0 == x.paired_first_blood.0 + y.paired_first_blood.0
    &&& z.paired_first_blood.1 == x.paired_first_blood.1 + y.paired_first_blood.1
    &&& z.damage.0 == x.damage.0 + y.damage.0
    &&& z.damage.1 == x.damage.1 + y.damage.1
}

/// The sheet over two lots of seeds is the sum of their sheets.
pub proof fn comparison_adds_up(
    x: Comparison,
    y: Comparison,
    z: Comparison,
    a1: Seq<MatchupOutcome>,
    b1: Seq<MatchupOutcome>,
    a2: Seq<MatchupOutcome>,
    b2: Seq<MatchupOutcome>,
)
    requires
        a1.len() == b1.len(),
        a2.len() == b2.len(),
        is_sheet(x, a1, b1),
        is_sheet(y, a2, b2),
        is_sheet(z, a1 + a2, b1 + b2),
    ensures
        is_sum_of(z, x, y),
{
    let a = a1 + a2;
    let b = b1 + b2;
    let n = a1.len() as int;
    let m = a2.len() as int;
    assert(forall|i: int| 0 <= i < n ==> #[trigger] a[i] == a1[i] && b[i] == b1[i]);
    assert(forall|i: int|
        0 <= i < m ==> #[trigger] a2[i] == a[n + i] && b2[i] == b[n + i]);
    lemma_summed_concat(
        |i: int| one_if(a[i].decided),
        |i: int| one_if(a1[i].decided),
        |i: int| one_if(a2[i].decided),
        n,
        m,
    );
    lemma_summed_concat(
        |i: int| one_if(b[i].decided),
        |i: int| one_if(b1[i].decided),
        |i: int| one_if(b2[i].decided),
        n,
        m,
    );
    lemma_summed_concat(
        |i: int| one_if(a[i].winner > 0),
        |i: int| one_if(a1[i].winner > 0),
        |i: int| one_if(a2[i].winner > 0),
        n,
        m,
    );
    lemma_summed_concat(
        |i: int| one_if(b[i].winner > 0),
        |i: int| one_if(b1[i].winner > 0),
        |i: int| one_if(b2[i].winner > 0),
        n,
        m,
    );
    lemma_summed_concat(
        |i: int| one_if(a[i].winner != b[i].winner),
        |i: int| one_if(a1[i].winner != b1[i].winner),
        |i: int| one_if(a2[i].winner != b2[i].winner),
        n,
        m,
    );
    lemma_summed_concat(
        |i: int| one_if(both_decided(a[i], b[i])),
        |i: int| one_if(both_decided(a1[i], b1[i])),
        |i: int| one_if(both_decided(a2[i], b2[i])),
        n,
        m,
    );
    lemma_summed_concat(
        |i: int| paired(a[i], b[i], a[i]),
        |i: int| paired(a1[i], b1[i], a1[i]),
        |i: int| paired(a2[i], b2[i], a2[i]),
        n,
        m,
    );
    lemma_summed_concat(
        |i: int| paired(a[i], b[i], b[i]),
        |i: int| paired(a1[i], b1[i], b1[i]),
        |i: int| paired(a2[i], b2[i], b2[i]),
        n,
        m,
    );
    lemma_summed_concat(
        |i: int| one_if(both_bled(a[i], b[i])),
        |i: int| one_if(both_bled(a1[i], b1[i])),
        |i: int| one_if(both_bled(a2[i], b2[i])),
        n,
        m,
    );
    lemma_summed_concat(
        |i: int| blood(a[i], b[i], a[i]),
        |i: int| blood(a1[i], b1[i], a1[i]),
        |i: int| blood(a2[i], b2[i], a2[i]),
        n,
        m,
    );
    lemma_summed_concat(
        |i: int| blood(a[i], b[i], b[i]),
        |i: int| blood(a1[i], b1[i], b1[i]),
        |i: int| blood(a2[i], b2[i], b2[i]),
        n,
        m,
    );
    lemma_summed_concat(
        |i: int| a[i].damage_traded as int,
        |i: int| a1[i].damage_traded as int,
        |i: int| a2[i].damage_traded as int,
        n,
        m,
    );
    lemma_summed_concat(
        |i: int| b[i].damage_traded as int,
        |i: int| b1[i].damage_traded as int,
        |i: int| b2[i].damage_traded as int,
        n,
        m,
    );
}

proof fn lemma_summed_concat(
    f: spec_fn(int) -> int,
    g: spec_fn(int) -> int,
    h: spec_fn(int) -> int,
    n: int,
    m: int,
)
    requires
        0 <= n,
        0 <= m,
        forall|i: int| 0 <= i < n ==> #[trigger] f(i) == g(i),
        forall|i: int| 0 <= i < m ==> f(n + i) == #[trigger] h(i),
    ensures
        summed(f, n + m) == summed(g, n) + summed(h, m),
    decreases m,
{
    if m == 0 {
        lemma_summed_same(f, g, n);
    } else {
        lemma_summed_concat(f, g, h, n, m - 1);
        assert(f(n + (m - 1)) == h(m - 1));
    }
}

/// `p` puts `n` things in another order, and `q` puts them back.
pub open spec fn reorders(p: Seq<int>, q: Seq<int>, n: int) -> bool {
    &&& p.len() == n
    &&& q.len() == n
    &&& forall|i: int| 0 <= i < n ==> 0 <= #[trigger] p[i] < n && q[p[i]] == i
    &&& forall|i: int| 0 <= i < n ==> 0 <= #[trigger] q[i] < n && p[q[i]] == i
}

pub open spec fn reordered(a: Seq<MatchupOutcome>, p: Seq<int>) -> Seq<MatchupOutcome> {
    Seq::new(p.len(), |i: int| a[p[i]])
}

/// The order of the seeds does not matter, as long as both settings keep the same one.
pub proof fn comparison_ignores_order(
    x: Comparison,
    y: Comparison,
    a: Seq<MatchupOutcome>,
    b: Seq<MatchupOutcome>,
    p: Seq<int>,
    q: Seq<int>,
)
    requires
        a.len() == b.len(),
        reorders(p, q, a.len() as int),
        is_sheet(x, a, b),
        is_sheet(y, reordered(a, p), reordered(b, p)),
    ensures
        x == y,
{
    let n = a.len() as int;
    let s = reordered(a, p);
    let t = reordered(b, p);
    lemma_summed_reordered(
        |i: int| one_if(a[i].decided),
        |i: int| one_if(s[i].decided),
        p,
        q,
        n,
    );
    lemma_summed_reordered(
        |i: int| one_if(b[i].decided),
        |i: int| one_if(t[i].decided),
        p,
        q,
        n,
    );
    lemma_summed_reordered(
        |i: int| one_if(a[i].winner > 0),
        |i: int| one_if(s[i].winner > 0),
        p,
        q,
        n,
    );
    lemma_summed_reordered(
        |i: int| one_if(b[i].winner > 0),
        |i: int| one_if(t[i].winner > 0),
        p,
        q,
        n,
    );
    lemma_summed_reordered(
        |i: int| one_if(a[i].winner != b[i].winner),
        |i: int| one_if(s[i].winner != t[i].winner),
        p,
        q,
        n,
    );
    lemma_summed_reordered(
        |i: int| one_if(both_decided(a[i], b[i])),
        |i: int| one_if(both_decided(s[i], t[i])),
        p,
        q,
        n,
    );
    lemma_summed_reordered(
        |i: int| paired(a[i], b[i], a[i]),
        |i: int| paired(s[i], t[i], s[i]),
        p,
        q,
        n,
    );
    lemma_summed_reordered(
        |i: int| paired(a[i], b[i], b[i]),
        |i: int| paired(s[i], t[i], t[i]),
        p,
        q,
        n,
    );
    lemma_summed_reordered(
        |i: int| one_if(both_bled(a[i], b[i])),
        |i: int| one_if(both_bled(s[i], t[i])),
        p,
        q,
        n,
    );
    lemma_summed_reordered(
        |i: int| blood(a[i], b[i], a[i]),
        |i: int| blood(s[i], t[i], s[i]),
        p,
        q,
        n,
    );
    lemma_summed_reordered(
        |i: int| blood(a[i], b[i], b[i]),
        |i: int| blood(s[i], t[i], t[i]),
        p,
        q,
        n,
    );
    lemma_summed_reordered(
        |i: int| a[i].damage_traded as int,
        |i: int| s[i].damage_traded as int,
        p,
        q,
        n,
    );
    lemma_summed_reordered(
        |i: int| b[i].damage_traded as int,
        |i: int| t[i].damage_traded as int,
        p,
        q,
        n,
    );
}

proof fn lemma_summed_update(f: spec_fn(int) -> int, g: spec_fn(int) -> int, k: int, n: int)
    requires
        0 <= k < n,
        forall|i: int| 0 <= i < n && i != k ==> #[trigger] f(i) == g(i),
    ensures
        summed(f, n) - f(k) == summed(g, n) - g(k),
    decreases n,
{
    if k == n - 1 {
        lemma_summed_same(f, g, n - 1);
    } else {
        lemma_summed_update(f, g, k, n - 1);
        assert(f(n - 1) == g(n - 1));
    }
}

proof fn lemma_summed_reordered(
    f: spec_fn(int) -> int,
    g: spec_fn(int) -> int,
    p: Seq<int>,
    q: Seq<int>,
    n: int,
)
    requires
        reorders(p, q, n),
        forall|i: int| 0 <= i < n ==> #[trigger] g(i) == f(p[i]),
    ensures
        summed(f, n) == summed(g, n),
    decreases n,
{
    if n > 0 {
        let k = q[n - 1];
        let l = p[n - 1];
        assert(p[k] == n - 1 && q[l] == n - 1);
        // Put what stands last where the last thing went.
        let p2 = p.update(k, l).take(n - 1);
        let q2 = q.update(l, k).take(n - 1);
        let g2 = |i: int|
            if i == k {
                g(n - 1)
            } else {
                g(i)
            };
        if k == n - 1 {
            assert(l == n - 1);
            assert forall|i: int| 0 <= i < n - 1 implies 0 <= #[trigger] p2[i] < n - 1 && q2[p2[i]]
                == i by {
                assert(p2[i] == p[i]);
                assert(q[p[i]] == i);
                assert(q2[p2[i]] == q[p[i]]);
            }
            assert forall|i: int| 0 <= i < n - 1 implies 0 <= #[trigger] q2[i] < n - 1 && p2[q2[i]]
                == i by {
                assert(q2[i] == q[i]);
                assert(p[q[i]] == i);
                assert(p2[q2[i]] == p[q[i]]);
            }
            assert forall|i: int| 0 <= i < n - 1 implies #[trigger] g(i) == f(p2[i]) by {
                assert(p2[i] == p[i]);
            }
            lemma_summed_reordered(f, g, p2, q2, n - 1);
            assert(g(n - 1) == f(p[n - 1]));
        } else {
            assert(l != n - 1);
            assert forall|i: int| 0 <= i < n - 1 implies 0 <= #[trigger] p2[i] < n - 1 && q2[p2[i]]
                == i by {
                if i == k {
                    assert(p2[i] == l);
                } else {
                    assert(p2[i] == p[i]);
                    assert(q[p[i]] == i);
                    assert(p[i] != n - 1);
                    assert(p[i] != l);
                    assert(q2[p2[i]] == q[p[i]]);
                }
            }
            assert forall|i: int| 0 <= i < n - 1 implies 0 <= #[trigger] q2[i] < n - 1 && p2[q2[i]]
                == i by {
                if i == l {
                    assert(q2[i] == k);
                } else {
                    assert(q2[i] == q[i]);
                    assert(p[q[i]] == i);
                    assert(q[i] != n - 1);
                    assert(q[i] != k);
                    assert(p2[q2[i]] == p[q[i]]);
                }
            }
            assert forall|i: int| 0 <= i < n - 1 implies #[trigger] g2(i) == f(p2[i]) by {
                if i == k {
                    assert(g(n - 1) == f(p[n - 1]));
                } else {
                    assert(p2[i] == p[i]);
                    assert(g(i) == f(p[i]));
                }
            }
            lemma_summed_reordered(f, g2, p2, q2, n - 1);
            lemma_summed_update(g, g2, k, n - 1);
            assert(g(k) == f(p[k]));
        }
    }
}

proof fn lemma_summed_same(f: spec_fn(int) -> int, g: spec_fn(int) -> int, n: int)
    requires
        forall|i: int| 0 <= i < n ==> #[trigger] f(i) == g(i),
    ensures
        summed(f, n) == summed(g, n),
    decreases n,
{
    if n > 0 {
        lemma_summed_same(f, g, n - 1);
        assert(f(n - 1) == g(n - 1));
    }
}

proof fn lemma_summed_zero(n: int)
    ensures
        summed(|i: int| 0int, n) == 0,
    decreases n,
{
    if n > 0 {
        lemma_summed_zero(n - 1);
    }
}

/// `x vs y`.
pub open spec fn versus(x: nat, y: nat) -> Seq<char> {
    decimal(x) + " vs "@ + decimal(y)
}

/// The number sheet as text.
pub open spec fn sheet(a: Seq<char>, b: Seq<char>, c: Comparison) -> Seq<char> {
    "combat mover adjudication — "@ + a + " vs "@ + b + " over "@ + decimal(c.seeds as nat)
        + " seeded matchups:\n"@ + "  decided (wipe inside cap): "@ + versus(
        c.decided.0 as nat,
        c.decided.1 as nat,
    ) + "\n"@ + "  side-0 wins (net-HP sign): "@ + versus(
        c.side0_wins.0 as nat,
        c.side0_wins.1 as nat,
    ) + "\n"@ + "  outcome flips (winner sign differs): "@ + decimal(c.flipped as nat) + "\n"@
        + "  Σ ticks-to-decision over the "@ + decimal(c.both_decided as nat)
        + " both-decided seeds: "@ + versus(c.paired_ticks.0 as nat, c.paired_ticks.1 as nat)
        + "\n"@ + "  Σ first-blood tick over the "@ + decimal(c.both_bled as nat)
        + " both-bled seeds: "@ + versus(
        c.paired_first_blood.0 as nat,
        c.paired_first_blood.1 as nat,
    ) + "\n"@ + "  Σ damage traded: "@ + versus(c.damage.0 as nat, c.damage.1 as nat) + "\n"@
}

fn push_versus(s: &mut String, x: u64, y: u64)
    ensures
        final(s)@ == old(s)@ + versus(x as nat, y as nat),
{
    let ghost before = s@;
    push_decimal(s, x);
    s.append(" vs ");
    push_decimal(s, y);
    assert(s@ =~= before + versus(x as nat, y as nat));
}

/// The number sheet as text, under the names of the two settings.
pub fn report(label_a: &str, label_b: &str, c: &Comparison) -> (s: String)
    ensures
        s@ == sheet(label_a@, label_b@, *c),
{
    let mut s: String = String::from_str("combat mover adjudication — ");
    s.append(label_a);
    s.append(" vs ");
    s.append(label_b);
    s.append(" over ");
    push_decimal(&mut s, c.seeds as u64);
    s.append(" seeded matchups:\n");
    s.append("  decided (wipe inside cap): ");
    push_versus(&mut s, c.decided.0 as u64, c.decided.1 as u64);
    s.append("\n");
    s.append("  side-0 wins (net-HP sign): ");
    push_versus(&mut s, c.side0_wins.0 as u64, c.side0_wins.1 as u64);
    s.append("\n");
    s.append("  outcome flips (winner sign differs): ");
    push_decimal(&mut s, c.flipped as u64);
    s.append("\n");
    s.append("  Σ ticks-to-decision over the ");
    push_decimal(&mut s, c.both_decided as u64);
    s.append(" both-decided seeds: ");
    push_versus(&mut s, c.paired_ticks.0, c.paired_ticks.1);
    s.append("\n");
    s.append("  Σ first-blood tick over the ");
    push_decimal(&mut s, c.both_bled as u64);
    s.append(" both-bled seeds: ");
    push_versus(&mut s, c.paired_first_blood.0, c.paired_first_blood.1);
    s.append("\n");
    s.append("  Σ damage traded: ");
    push_versus(&mut s, c.damage.0, c.damage.1);
    s.append("\n");
    s
}

// ── What an outcome says ───────────────────────────────────────────────────

/// Hits are conserved in every outcome, decided or not: what was lost and what is left is
/// what there was.
pub proof fn hits_are_conserved(run: MatchupRun, hp0: int, hp1: int)
    requires
        0 <= hp0,
        0 <= hp1,
        hp0 + hp1 <= run.start_hp,
        run.ticked(hp0, hp1).1 is Some,
    ensures
        ({
            let o = run.ticked(hp0, hp1).1->0;
            &&& o.damage_traded + hp0 + hp1 == run.start_hp
            &&& o.net_hp == hp0 - hp1
            &&& o.damage_traded > 0 <==> hp0 + hp1 < run.start_hp
            &&& o.damage_traded > 0 ==> o.first_blood is Some
            &&& o.winner > 0 <==> hp0 > hp1
            &&& o.winner < 0 <==> hp0 < hp1
            &&& -1 <= o.winner <= 1
        }),
{
}

/// A matchup is over when a side has no hits left, at the tick in which that happened, and
/// otherwise only at the cap.
pub proof fn matchup_ends_on_a_wipe_or_at_the_cap(run: MatchupRun, hp0: int, hp1: int)
    requires
        run.tick < run.tick_cap,
        0 <= hp0,
        0 <= hp1,
    ensures
        (hp0 == 0 || hp1 == 0) ==> (run.ticked(hp0, hp1).1 matches Some(o) && o.decided && o.ticks
            == run.tick + 1),
        hp0 > 0 && hp1 > 0 && run.tick + 1 < run.tick_cap ==> run.ticked(hp0, hp1).1 is None
            && run.ticked(hp0, hp1).0.tick == run.tick + 1,
        hp0 > 0 && hp1 > 0 && run.tick + 1 == run.tick_cap ==> (run.ticked(
            hp0,
            hp1,
        ).1 matches Some(o) && !o.decided && o.ticks == run.tick_cap),
        run.ticked(hp0, hp1).0.start_hp == run.start_hp,
        run.ticked(hp0, hp1).0.tick_cap == run.tick_cap,
{
}

/// First blood is the first tick after which hits are missing, and is never taken back.
pub proof fn first_blood_is_drawn_once(run: MatchupRun, hp0: int, hp1: int)
    ensures
        run.first_blood is Some ==> run.ticked(hp0, hp1).0.first_blood == run.first_blood,
        run.first_blood is None && hp0 + hp1 < run.start_hp ==> run.ticked(hp0, hp1).0.first_blood
            == Some(run.tick),
        run.first_blood is None && hp0 + hp1 >= run.start_hp ==> run.ticked(
            hp0,
            hp1,
        ).0.first_blood is None,
        run.ticked(hp0, hp1).1 matches Some(o) ==> o.first_blood == run.ticked(
            hp0,
            hp1,
        ).0.first_blood,
{
}

/// Exchanging the two sides' hits exchanges the winner and the sign of the net, and nothing
/// else.
pub proof fn matchup_is_symmetric(run: MatchupRun, hp0: int, hp1: int)
    requires
        0 <= hp0 <= u32::MAX,
        0 <= hp1 <= u32::MAX,
    ensures
        run.ticked(hp0, hp1).0 == run.ticked(hp1, hp0).0,
        run.ticked(hp0, hp1).1 is Some <==> run.ticked(hp1, hp0).1 is Some,
        run.ticked(hp0, hp1).1 matches Some(o) ==> {
            let p = run.ticked(hp1, hp0).1->0;
            &&& o.decided == p.decided
            &&& o.winner == -p.winner
            &&& o.net_hp == -p.net_hp
            &&& o.ticks == p.ticks
            &&& o.first_blood == p.first_blood
            &&& o.damage_traded == p.damage_traded
        },
{
}

/// One seed compared: what each number of its sheet says.
pub proof fn one_seed_is_compared(c: Comparison, x: MatchupOutcome, y: MatchupOutcome)
    requires
        is_sheet(c, seq![x], seq![y]),
    ensures
        c.seeds == 1,
        c.decided.0 == 1 <==> x.decided,
        c.decided.1 == 1 <==> y.decided,
        c.side0_wins.0 == 1 <==> x.winner > 0,
        c.side0_wins.1 == 1 <==> y.winner > 0,
        c.flipped == 1 <==> x.winner != y.winner,
        c.both_decided == 1 <==> x.decided && y.decided,
        c.both_bled == 1 <==> x.first_blood is Some && y.first_blood is Some,
        c.damage.0 == x.damage_traded,
        c.damage.1 == y.damage_traded,
        c.paired_ticks.0 == if x.decided && y.decided {
            x.ticks as int
        } else {
            0
        },
        c.paired_ticks.1 == if x.decided && y.decided {
            y.ticks as int
        } else {
            0
        },
        c.paired_first_blood.0 == if x.first_blood is Some && y.first_blood is Some {
            x.first_blood->0 as int
        } else {
            0
        },
        c.paired_first_blood.1 == if x.first_blood is Some && y.first_blood is Some {
            y.first_blood->0 as int
        } else {
            0
        },
{
    let a = seq![x];
    let b = seq![y];
    assert(a[0] == x && b[0] == y);
    reveal_with_fuel(summed, 2);
}

/// A bid is carried by a member that lives, and no living member beats it: none deals more
/// damage, and none as much under a lower id.
pub proof fn binding_member_is_the_first_of_the_strongest(
    s: Seq<SimCreep>,
    ids: Seq<u32>,
    n: int,
    i: int,
)
    requires
        0 <= i < n <= ids.len(),
        living_with(s, ids[i]) is Some,
    ensures
        binding_of(s, ids, n) matches Some(b) && ids.take(n).contains(b.1) && ({
            let c = living_with(s, ids[i])->0;
            let dealt = c.attack_power + c.ranged_attack_power;
            dealt < b.0 || (dealt == b.0 && b.1 <= ids[i])
        }),
    decreases n,
{
    lemma_binding_is_listed(s, ids, n);
    lemma_binding_beats(s, ids, n, i);
}

proof fn lemma_binding_is_listed(s: Seq<SimCreep>, ids: Seq<u32>, n: int)
    requires
        0 <= n <= ids.len(),
    ensures
        binding_of(s, ids, n) matches Some(b) ==> ids.take(n).contains(b.1),
    decreases n,
{
    if n > 0 {
        lemma_binding_is_listed(s, ids, n - 1);
        if let Some(b) = binding_of(s, ids, n) {
            if b.1 == ids[n - 1] {
                assert(ids.take(n)[n - 1] == b.1);
            } else {
                let front = ids.take(n - 1);
                assert(front.contains(b.1));
                let k = choose|k: int| 0 <= k < front.len() && front[k] == b.1;
                assert(front[k] == ids[k]);
                assert(ids.take(n)[k] == b.1);
            }
        }
    }
}

proof fn lemma_binding_beats(s: Seq<SimCreep>, ids: Seq<u32>, n: int, i: int)
    requires
        0 <= i < n <= ids.len(),
        living_with(s, ids[i]) is Some,
    ensures
        binding_of(s, ids, n) matches Some(b) && ({
            let c = living_with(s, ids[i])->0;
            let dealt = c.attack_power + c.ranged_attack_power;
            dealt < b.0 || (dealt == b.0 && b.1 <= ids[i])
        }),
    decreases n,
{
    if i < n - 1 {
        lemma_binding_beats(s, ids, n - 1, i);
    }
}

/// A real bid grows with its rate and stays strictly between the two anchors.
pub proof fn real_bid_orders_by_rate(a: i64, b: i64)
    requires
        a <= b,
    ensures
        clamped_rate(a) <= clamped_rate(b),
        0 < a && a < b && b < 1_000_000 ==> clamped_rate(a) < clamped_rate(b),
        1_000_000 < NORMAL_ANCHOR + clamped_rate(a) < 2_000_000,
        0 < a < 1_000_000 ==> clamped_rate(a) == a,
{
}

/// Odd seeds fight round a pinch with three open rows in the middle column, even ones in
/// the open.
pub proof fn a_pinch_leaves_three_rows(x: int, y: int)
    requires
        0 <= x < 50,
        0 <= y < 50,
    ensures
        x != 25 ==> !pinch_wall(50 * y + x),
        x == 25 && 24 <= y <= 26 ==> !pinch_wall(50 * y + x),
        x == 25 && (y < 24 || y > 26) ==> pinch_wall(50 * y + x),
{
}

/// An id finds its first living creep, and nothing where none with that id has hits.
pub proof fn an_id_finds_its_first_living_creep(s: Seq<SimCreep>, id: u32, i: int)
    requires
        0 <= i <= s.len(),
        forall|k: int| 0 <= k < i ==> (#[trigger] s[k]).id != id || s[k].hits == 0,
    ensures
        i < s.len() && s[i].id == id && s[i].hits >= 1 ==> living_with(s, id) == Some(s[i]),
        i == s.len() ==> living_with(s, id) is None,
    decreases s.len(),
{
    if s.len() > 0 {
        let d = s.drop_last();
        let n = s.len() - 1;
        assert forall|k: int| 0 <= k < i && k < n implies (#[trigger] d[k]).id != id || d[k].hits
            == 0 by {
            assert(d[k] == s[k]);
        }
        if i < n {
            an_id_finds_its_first_living_creep(d, id, i);
        } else {
            an_id_finds_its_first_living_creep(d, id, n);
            if i == s.len() {
                assert(s[n].id != id || s[n].hits == 0);
            }
        }
    }
}

/// A normal priority lies a million below a high one, and the fixed bid between them, a rate of
/// 400 above the normal.
pub proof fn priorities_lie_a_million_apart(rate: i64)
    ensures
        HIGH_ANCHOR == NORMAL_ANCHOR + 1_000_000,
        NORMAL_ANCHOR == 1_000_000,
        BID_VALUE_E == 400 * BID_EST_TICKS,
        ENERGY == 5_600,
        NORMAL_ANCHOR < NORMAL_ANCHOR + clamped_rate(rate) < HIGH_ANCHOR,
{
}

} // verus!
