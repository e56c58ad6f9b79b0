use combat_eval::generate::{ForceSpec, Layout};
use combat_eval::lifecycle::LifecycleOutcome;
use combat_eval::mover_adjudication::{
    bid_inputs, bid_mode, bid_ticks, bids, binding_member, binding_member_bid, compare, ladder,
    matchup_files, matchup_terrain, real_bid, report, BidMode, Comparison, MatchupOutcome,
    MatchupRun, StuckThresholds, ENERGY, HIGH_ANCHOR, NORMAL_ANCHOR,
};
use combat_eval::param_sweep::{
    acceptance_regimes, any_beats, defended_forming, evaluate_params, format_row, rank,
    sweep_report, top_holds, ParamScore, Regime, RowTexts, SweepPoint, SweepTotals, TableLine,
};
use combat_eval::rng::Rng;
use combat_eval::roster::{random_squad, Part};
use combat_eval::validate::{Calibration, CreepClearWins, SizingWins};
use combat_eval::world::{pos_in, CombatWorld, SimCreep};

fn score(gates: bool, win: f64, cost: f64) -> ParamScore {
    ParamScore {
        fielded: 10,
        win_rate: win.to_bits(),
        fp_rate: 0.0f64.to_bits(),
        fn_rate: 0.0f64.to_bits(),
        mean_spawn_cost_per_win: cost.to_bits(),
        gates_held: gates,
    }
}

#[test]
fn ranking_is_winning_but_efficient() {
    let pts = vec![
        ("a", score(true, 0.9, 5000.0)),
        ("b", score(true, 0.9, 3000.0)),
        ("c", score(true, 0.8, 1000.0)),
        ("d", score(false, 1.0, 100.0)),
    ];
    let ranked = rank(pts);
    assert_eq!(
        f64::from_bits(ranked[0].1.mean_spawn_cost_per_win),
        3000.0,
        "cheapest of the top win-rate ranks first"
    );
    assert_eq!(
        f64::from_bits(ranked[1].1.mean_spawn_cost_per_win),
        5000.0,
        "pricier same-win ranks second"
    );
    assert_eq!(f64::from_bits(ranked[2].1.win_rate), 0.8, "lower win-rate ranks third");
    assert!(!ranked[3].1.gates_held, "gates-failing ranks last");
    assert_eq!(ranked.iter().map(|p| p.0).collect::<Vec<_>>(), vec!["b", "a", "c", "d"]);
}

#[test]
fn equal_points_keep_their_order() {
    let pts = vec![
        (1, score(true, 0.5, 10.0)),
        (2, score(true, 0.7, 10.0)),
        (3, score(true, 0.5, 10.0)),
        (4, score(true, 0.7, 10.0)),
    ];
    let ranked = rank(pts);
    assert_eq!(ranked.iter().map(|p| p.0).collect::<Vec<_>>(), vec![2, 4, 1, 3]);
    assert!(score(true, 0.5, 10.0).winning_efficient_key() > score(true, 0.5, 11.0).winning_efficient_key());
}

#[test]
fn regimes_are_named_in_any_case() {
    assert_eq!(Regime::parse("structure"), Some(Regime::Structure));
    assert_eq!(Regime::parse("  CrEeP\t\n"), Some(Regime::Creep));
    assert_eq!(Regime::parse("\u{3000}DEFENDED\u{a0}"), Some(Regime::Defended));
    assert_eq!(Regime::parse("All"), Some(Regime::All));
    assert_eq!(Regime::parse("a ll"), None);
    assert_eq!(Regime::parse(""), None);
    assert_eq!(Regime::parse("   "), None);
    assert_eq!(Regime::parse("structures"), None);
    // The Kelvin sign lowers to an ASCII letter in Unicode, but not in ASCII.
    assert_eq!(Regime::parse("\u{212a}"), None);
    assert!(Regime::All.runs_structure() && Regime::All.runs_creep() && Regime::All.runs_defended());
    assert!(!Regime::Creep.runs_structure() && !Regime::Creep.runs_defended());
}

fn calibration(fp: u32, fnr: u32) -> Calibration {
    Calibration {
        scenarios: 120,
        fielded: 100,
        false_positives: fp,
        deferred: 20,
        false_negatives: fnr,
        unfieldable: 0,
        drain_winnable: 0,
    }
}

#[test]
fn beds_are_folded_by_regime() {
    let sizing = SizingWins { attempted: 10, won: 8, winning_spawn_cost: 800 };
    let creep = CreepClearWins { attempted: 4, won: 3, winning_spawn_cost: 90 };
    let killed = LifecycleOutcome::Killed { form_ticks: 1, engage_ticks: 1 };
    let stalled = LifecycleOutcome::Stalled { form_ticks: 1, engage_ticks: 1 };
    let all = evaluate_params(Regime::All, &calibration(1, 4), &sizing, &creep, &vec![killed]);
    assert_eq!(
        all,
        SweepTotals { fielded: 100, won: 11, attempted: 14, winning_cost: 890, gates_held: true }
    );
    let s = evaluate_params(Regime::Structure, &calibration(1, 4), &sizing, &creep, &vec![stalled]);
    assert_eq!(
        s,
        SweepTotals { fielded: 100, won: 8, attempted: 10, winning_cost: 800, gates_held: true }
    );
    let c = evaluate_params(Regime::Creep, &calibration(2, 4), &sizing, &creep, &vec![]);
    assert_eq!((c.fielded, c.won, c.gates_held), (0, 3, false));
    let d = evaluate_params(
        Regime::Defended,
        &calibration(0, 0),
        &sizing,
        &creep,
        &vec![killed, stalled],
    );
    assert!(!d.gates_held && d.attempted == 0);
}

#[test]
fn acceptance_regimes_are_the_graded_ones() {
    let r = acceptance_regimes();
    assert_eq!(r.len(), 4);
    assert_eq!(r[0].label, "canonical: rampart + tower + guard");
    assert_eq!((r[1].rampart, r[1].towers.len(), r[1].force), (50_000, 0, ForceSpec::Guard(1)));
    assert_eq!(r[2].towers, vec![((24, 16), 100_000)]);
    assert_eq!(r[3].layout, Layout::Corridor);
    let f = defended_forming(6);
    assert_eq!((f.slots, f.homes.len(), f.budget_ticks), (6, 4, 4000));
    assert_eq!(f32::from_bits(f.combat_priority), 87.5);
    assert_eq!(f.economy.hauler.map(|h| (f32::from_bits(h.0), h.1)), Some((75.0, 1000)));
}

#[test]
fn rows_are_laid_out() {
    let t = RowTexts {
        hold: "1.300".into(),
        over: "1.500".into(),
        commit: "0.0000".into(),
        dynamic: "1.00".into(),
        w_energy: "0.0010".into(),
        w_creep: "0.00".into(),
        win: "0.900".into(),
        fp: "0.0000".into(),
        fnr: "0.1000".into(),
        cost: "3000".into(),
    };
    assert_eq!(
        format_row(0, 3000, &t, true, 42),
        "#1   hold=1.300 over=1.500 mem_energy=3000  commit=0.0000 dyn=1.00 w_e=0.0010 w_c=0.00 | gates=HELD win=0.900 fp=0.0000 fn=0.1000 cost/win=3000 fielded=42"
    );
}

// Movement settings.

#[test]
fn ladders_keep_their_ratios() {
    assert_eq!(ladder(2), StuckThresholds::default());
    assert_eq!(
        ladder(8),
        StuckThresholds {
            avoid_friendly_creeps: 8,
            avoid_all_friendly_creeps: 16,
            increase_ops: 20,
            enable_shoving: 28,
            report_failure: 48,
            no_progress_repath: 60,
        }
    );
    let zero = ladder(0);
    assert_eq!((zero.avoid_friendly_creeps, zero.avoid_all_friendly_creeps), (1, 1));
    assert_eq!(ladder(1).increase_ops, 3, "rounded up");
}

fn creep(id: u32, attack: u32, ranged: u32, hits: u32) -> SimCreep {
    SimCreep {
        id,
        owner: if id < 1000 { 0 } else { 1 },
        pos: pos_in((-2, -2), 8, 22),
        hits,
        hits_max: hits,
        attack_power: attack,
        ranged_attack_power: ranged,
        heal_power: 12,
        dismantle_power: 0,
    }
}

fn world(creeps: Vec<SimCreep>) -> CombatWorld {
    CombatWorld {
        creeps,
        structures: vec![],
        towers: vec![],
        controllers: vec![],
        safe_mode_owner: None,
    }
}

/// The creep that a body of parts makes.
fn built(id: u32, body: &[Part]) -> SimCreep {
    let n = |p: Part| body.iter().filter(|&&q| q == p).count() as u32;
    creep(id, n(Part::Attack) * 30, n(Part::RangedAttack) * 10, body.len() as u32 * 100)
}

#[test]
fn real_kernel_bids_stay_inside_the_normal_high_band() {
    let mut rng = Rng::seeded(3);
    let a = random_squad(&mut rng, ENERGY, 4);
    let b = random_squad(&mut rng, ENERGY, 4);
    let (fa, fb) = matchup_files(a.len(), b.len());
    let mut creeps: Vec<SimCreep> = Vec::new();
    for (p, body) in fa.iter().zip(&a).chain(fb.iter().zip(&b)) {
        creeps.push(built(p.id, body));
    }
    let w = world(creeps);
    let a_ids: Vec<u32> = fa.iter().map(|p| p.id).collect();
    let b_ids: Vec<u32> = fb.iter().map(|p| p.id).collect();
    for (own, enemy) in [(&a_ids, &b_ids), (&b_ids, &a_ids)] {
        assert!(binding_member(&w, own).is_some(), "exactly one binding member per side");
        let i = bid_inputs(&w, own, enemy);
        let ticks = bid_ticks(i.own_dps > 0, i.enemy_hp / i.own_dps.max(1));
        let bid = real_bid(240_000_000 / ticks as i64);
        assert!(
            bid > NORMAL_ANCHOR && bid < HIGH_ANCHOR,
            "real bid {bid} must sit strictly inside (Normal, High)"
        );
    }
}

#[test]
fn bids_are_clamped_to_their_band() {
    assert_eq!(binding_member_bid(), 1_400_000);
    assert_eq!(real_bid(-5), 1_000_001);
    assert_eq!(real_bid(0), 1_000_001);
    assert_eq!(real_bid(i64::MAX), 1_999_999);
    assert_eq!(real_bid(42), 1_000_042);
    assert_eq!((bid_ticks(false, 9), bid_ticks(true, 9), bid_ticks(true, 0)), (600, 9, 1));
    assert_eq!((bid_mode(true), bid_mode(false)), (BidMode::FixtureRO, BidMode::EnumOnly));
}

#[test]
fn the_strongest_living_member_binds() {
    let w = world(vec![
        creep(1, 30, 0, 100),
        creep(2, 0, 90, 0),
        creep(3, 0, 60, 500),
        creep(4, 60, 0, 300),
    ]);
    assert_eq!(binding_member(&w, &vec![1, 2, 3, 4]), Some(3), "a tie goes to the lower id");
    assert_eq!(binding_member(&w, &vec![4, 3]), Some(3));
    assert_eq!(binding_member(&w, &vec![2, 9]), None);
    assert_eq!(bids(BidMode::EnumOnly, &w, &vec![1, 3], 5), vec![]);
    assert_eq!(bids(BidMode::FixtureRO, &w, &vec![1, 3], 5), vec![(3, 1_400_000)]);
    assert_eq!(bids(BidMode::RealRO, &w, &vec![1, 3], 5), vec![(3, NORMAL_ANCHOR + 5)]);
    assert_eq!(bids(BidMode::RealRO, &w, &vec![1, 3], -5), vec![(3, NORMAL_ANCHOR + 1)]);
    assert_eq!(bids(BidMode::RealRO, &w, &vec![2, 9], 5), vec![]);
    let i = bid_inputs(&w, &vec![1, 2, 3], &vec![4]);
    assert_eq!((i.fielded_heal, i.own_dps, i.tank_hp, i.enemy_dps, i.enemy_hp), (24, 90, 500, 60, 300));
}

#[test]
fn pinches_have_one_gap() {
    let open = matchup_terrain(2);
    let pinch = matchup_terrain(3);
    assert!(open.wall_tiles().is_empty());
    assert_eq!(pinch.wall_tiles().len(), 47);
    assert!(pinch.is_wall(25, 23) && !pinch.is_wall(25, 24) && !pinch.is_wall(25, 26) && pinch.is_wall(25, 27));
}

fn sides(a: u32, b: u32) -> CombatWorld {
    world(vec![creep(1, 0, 0, a), creep(1000, 0, 0, b)])
}

#[test]
fn matchups_end_on_a_wipe_or_at_the_cap() {
    let (mut run, over) = MatchupRun::start(&sides(100, 100), 300);
    assert!(over.is_none());
    assert!(run.next(&sides(100, 100)).is_none());
    assert!(run.next(&sides(90, 100)).is_none());
    let o = run.next(&sides(80, 0)).unwrap();
    assert_eq!(
        o,
        MatchupOutcome {
            decided: true,
            winner: 1,
            ticks: 3,
            first_blood: Some(1),
            net_hp: 80,
            damage_traded: 120,
        }
    );
    let (mut capped, _) = MatchupRun::start(&sides(100, 120), 1);
    let c = capped.next(&sides(100, 120)).unwrap();
    assert_eq!((c.decided, c.winner, c.ticks, c.first_blood), (false, -1, 1, None));
    assert!(MatchupRun::start(&sides(1, 1), 0).1.is_some());
}

#[test]
fn mover_config_reaches_the_combat_bed_and_is_deterministic() {
    // Two seeds, one on open ground and one with a pinch, fought by a fixed exchange.
    let run = |damage: u32| -> Vec<MatchupOutcome> {
        (0..2u32)
            .map(|seed| {
                let gap = matchup_terrain(seed).wall_tiles().len() as u32;
                let (mut a, mut b) = (1000u32, 900u32);
                let (mut run, _) = MatchupRun::start(&sides(a, b), 80);
                loop {
                    b = b.saturating_sub(damage + gap);
                    a = a.saturating_sub(damage);
                    if let Some(o) = run.next(&sides(a, b)) {
                        return o;
                    }
                }
            })
            .collect()
    };
    let a1 = run(20);
    let a2 = run(20);
    assert_eq!(a1, a2, "same seeds + config ⇒ bit-identical outcomes");
    let b = run(5);
    assert_eq!(b.len(), 2);
    assert!(a1.iter().any(|o| o.first_blood.is_some()) && b.iter().any(|o| o.first_blood.is_some()));
    let same = compare(&a1, &a2);
    assert_eq!((same.flipped, same.decided.0, same.decided.1), (0, 2, 2));
}

#[test]
fn number_sheets_pair_the_seeds() {
    let o = |decided, winner, ticks, first_blood, damage_traded| MatchupOutcome {
        decided,
        winner,
        ticks,
        first_blood,
        net_hp: winner as i64,
        damage_traded,
    };
    let a = vec![o(true, 1, 10, Some(2), 100), o(false, -1, 80, None, 0)];
    let b = vec![o(true, -1, 12, Some(3), 90), o(true, -1, 40, Some(5), 50)];
    let c = compare(&a, &b);
    assert_eq!((c.seeds, c.flipped, c.both_decided, c.both_bled), (2, 1, 1, 1));
    assert_eq!((c.decided, c.side0_wins), ((1, 2), (1, 0)));
    assert_eq!((c.paired_ticks, c.paired_first_blood, c.damage), ((10, 12), (2, 3), (100, 140)));
    assert_eq!(
        report("A", "B", &c),
        "combat mover adjudication — A vs B over 2 seeded matchups:\n\
         \x20 decided (wipe inside cap): 1 vs 2\n\
         \x20 side-0 wins (net-HP sign): 1 vs 0\n\
         \x20 outcome flips (winner sign differs): 1\n\
         \x20 Σ ticks-to-decision over the 1 both-decided seeds: 10 vs 12\n\
         \x20 Σ first-blood tick over the 1 both-bled seeds: 2 vs 3\n\
         \x20 Σ damage traded: 100 vs 140\n"
    );
}

#[test]
fn number_sheets_are_fair_to_both_settings() {
    let o = |decided, winner, ticks, first_blood, damage_traded| MatchupOutcome {
        decided,
        winner,
        ticks,
        first_blood,
        net_hp: winner as i64,
        damage_traded,
    };
    let a = vec![
        o(true, 1, 10, Some(2), 100),
        o(false, -1, 80, None, 0),
        o(true, 0, 33, Some(9), 7),
    ];
    let b = vec![
        o(true, -1, 12, Some(3), 90),
        o(true, -1, 40, Some(5), 50),
        o(false, 1, 80, Some(8), 20),
    ];
    let sheet = |c: &Comparison| {
        [
            (c.seeds as u64, c.flipped as u64),
            (c.both_decided as u64, c.both_bled as u64),
            (c.decided.0 as u64, c.decided.1 as u64),
            (c.side0_wins.0 as u64, c.side0_wins.1 as u64),
            c.paired_ticks,
            c.paired_first_blood,
            c.damage,
        ]
    };
    let (x, y) = (sheet(&compare(&a, &b)), sheet(&compare(&b, &a)));
    assert_eq!(x[..2], y[..2]);
    for k in 2..7 {
        assert_eq!(x[k], (y[k].1, y[k].0));
    }
    let turned = |v: &[MatchupOutcome]| vec![v[2].clone(), v[0].clone(), v[1].clone()];
    assert_eq!(sheet(&compare(&turned(&a), &turned(&b))), x, "the order does not matter");
    let (head, tail) = (
        sheet(&compare(&a[..1].to_vec(), &b[..1].to_vec())),
        sheet(&compare(&a[1..].to_vec(), &b[1..].to_vec())),
    );
    for k in 0..7 {
        assert_eq!(x[k], (head[k].0 + tail[k].0, head[k].1 + tail[k].1));
    }
    assert_eq!(sheet(&compare(&vec![], &vec![])), [(0, 0); 7]);
}

#[test]
fn a_sweep_is_reported() {
    let point = |gates, win, cost, standing| SweepPoint { score: score(gates, win, cost), standing };
    let standing = score(true, 0.8, 3000.0);
    assert!(!any_beats(&vec![point(true, 0.8, 3000.0, true)], standing));
    assert!(!any_beats(&vec![point(true, 0.8, 3000.0, false)], standing), "a tie is no win");
    assert!(any_beats(&vec![point(true, 0.8, 2999.0, false)], standing));
    assert!(any_beats(&vec![point(true, 0.7, 1.0, false), point(true, 0.9, 9000.0, false)], standing));
    assert!(!any_beats(&vec![point(false, 1.0, 1.0, false)], standing), "the limits are broken");
    assert!(!any_beats(&vec![point(true, 0.9, 1.0, true)], standing));
    assert!(top_holds(&vec![point(true, 0.1, 1.0, false)]));
    assert!(!top_holds(&vec![point(false, 0.1, 1.0, false)]) && !top_holds(&vec![]));
    let lines = vec![
        TableLine { row: "first".into(), standing: false },
        TableLine { row: "second".into(), standing: true },
    ];
    assert_eq!(
        sweep_report(48, Regime::Defended, "base", true, &lines),
        "# CompositionParams sweep — 48 points, regime=Defended\n\
         # ranked winning-but-efficient: gates-held, then win_rate DESC, then cost/win ASC\n\
         # gates: FP<=0.01 AND FN<=0.2 AND acceptance defended bed Killed\n\
         # Default baseline: base\n\
         # any swept point strictly beats Default: true\n\
         #\n\
         first\n\
         second  <== Default\n"
    );
}
