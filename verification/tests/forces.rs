use combat_eval::evaluate::{
    AnyOf, Condition, EvalStep, Evaluation, ObjectivesDestroyed, RunUntil, SideWiped, StopReason,
};
use combat_eval::fielding::{
    assault_score, choose_fielded_comp, managed_assault_comp, max_role_parts, run_until_for,
    run_until_self_play, siege_ceiling, AssaultMode, Fielded, PlanSummary,
};
use combat_eval::generate::{Generator, RandomDefendedBase};
use combat_eval::lanchester::{
    draw_trial, living_hp, matchup, net_hp, place, report, EnginePrediction, ValidationReport,
};
use combat_eval::profile::{
    coordination, defender_force, derive_profile, enemy_force_of, sizing_energy,
};
use combat_eval::rng::Rng;
use combat_eval::roster::{part_cost, random_body, random_squad, sample_squad, Part};
use combat_eval::siege::{siege_intents, CombatAction, Order};
use combat_eval::staging::SquadRole;
use combat_eval::validate::{
    classify, clear_outcome, Calibration, CalibrationRow, CreepClearWins, ManagedSquadIntegration,
    OracleCalibration, OracleObservation, SelfPlay, SizingWins,
};
use combat_eval::world::{
    pos_in, CombatWorld, SimCreep, SimStructure, StructureKind,
};

#[test]
fn random_body_is_within_budget_and_not_inert() {
    for seed in 0..50u32 {
        let mut rng = Rng::seeded(seed);
        let energy = [1300, 2300, 5600, 12_900][seed as usize % 4];
        let body = random_body(&mut rng, energy);
        let cost: u32 = body.iter().map(|&p| part_cost(p)).sum();
        assert!(cost <= energy, "body within budget (cost {cost} <= {energy})");
        assert!(body.len() <= 50, "body within the 50-part cap ({} parts)", body.len());
        assert!(
            body.iter().any(|&p| matches!(
                p,
                Part::Attack | Part::RangedAttack | Part::Heal | Part::Work
            )),
            "body has a useful part (not inert): {body:?}"
        );
        assert!(body.contains(&Part::Move), "body has MOVE for mobility");
    }
}

#[test]
fn random_squads_are_deterministic_per_seed() {
    let s1 = random_squad(&mut Rng::seeded(7), 5600, 4);
    let s2 = random_squad(&mut Rng::seeded(7), 5600, 4);
    assert_eq!(s1, s2, "same seed → identical squad (reproducible)");
    assert_eq!(sample_squad(7, 5600, 4), s1);
}

#[test]
fn trials_are_drawn_and_placed() {
    let (a, b) = draw_trial(3, 5600);
    assert!((2..=6).contains(&a.len()) && (2..=6).contains(&b.len()));
    let file = place(1, 1000, 3, 41, 22);
    assert_eq!(file.len(), 3);
    assert_eq!(file[2].id, 1002);
    assert_eq!(file[0].owner, 1);
}

#[test]
fn predictions_are_tallied() {
    let right = matchup(
        1,
        EnginePrediction { balance: 500, win_permille: 900, unwinnable: false },
        1200,
    );
    let wrong = matchup(
        2,
        EnginePrediction { balance: 500, win_permille: 900, unwinnable: false },
        -1200,
    );
    assert!(right.agree && !wrong.agree);
    let mut r = ValidationReport::new();
    r.count(right);
    r.count(wrong);
    assert_eq!((r.trials, r.outliers.len()), (2, 1));
    let text = report(&r, "50.0");
    assert!(text.starts_with("Lanchester validation — 2 random matchups:\n"), "{text}");
    assert!(text.contains("outliers (predicted a clear winner that LOST): 1\n"), "{text}");
    assert!(text.contains("seed    2: predicted balance  +500 (900‰ win)"), "{text}");
    assert!(text.contains("actual net HP  -1200"), "{text}");
}

fn creep(id: u32, owner: u32, x: u8, y: u8, hits: u32) -> SimCreep {
    SimCreep {
        id,
        owner,
        pos: pos_in((-2, -2), x, y),
        hits,
        hits_max: 1000,
        attack_power: 0,
        ranged_attack_power: 0,
        heal_power: 0,
        dismantle_power: 0,
    }
}

fn structure(id: u32, kind: StructureKind, x: u8, hits: u32) -> SimStructure {
    SimStructure {
        id,
        kind,
        owner: Some(1),
        pos: pos_in((-2, -2), x, 25),
        hits,
        hits_max: hits,
    }
}

fn world(creeps: Vec<SimCreep>, structures: Vec<SimStructure>) -> CombatWorld {
    CombatWorld { creeps, structures, towers: vec![], controllers: vec![], safe_mode_owner: None }
}

#[test]
fn only_the_living_count() {
    let w = world(vec![creep(1, 0, 5, 5, 300), creep(2, 0, 6, 5, 0), creep(3, 1, 7, 5, 100)], vec![]);
    assert_eq!(living_hp(&w, 0), 300);
    assert_eq!(net_hp(&w), 200);
}

#[test]
fn sieges_break_the_nearest_rampart_first() {
    let mut d = creep(1, 0, 24, 25, 900);
    d.dismantle_power = 50;
    let mut h = creep(2, 0, 23, 25, 1000);
    h.heal_power = 12;
    let core = structure(100, StructureKind::Spawn, 27, 5000);
    let gate = structure(101, StructureKind::Rampart, 25, 3000);
    let w = world(vec![d, h], vec![core, gate]);
    let orders = siege_intents(&w, 0, 100, core.pos);
    assert!(orders.contains(&Order { creep: 1, action: CombatAction::Dismantle(101) }), "{orders:?}");
    assert!(
        orders.iter().any(|o| o.creep == 2 && o.action == CombatAction::Heal(1)),
        "{orders:?}"
    );
    let mut fallen = gate;
    fallen.hits = 0;
    let near = structure(100, StructureKind::Spawn, 25, 5000);
    let w2 = world(vec![d, h], vec![near, fallen]);
    let orders2 = siege_intents(&w2, 0, 100, near.pos);
    assert!(orders2.contains(&Order { creep: 1, action: CombatAction::Dismantle(100) }));
}

#[test]
fn evaluations_stop_for_the_first_reason_or_the_budget() {
    let core = structure(100, StructureKind::Spawn, 25, 10);
    let until = AnyOf(vec![
        Condition::Destroyed(ObjectivesDestroyed(vec![100])),
        Condition::Wiped(SideWiped(0)),
    ]);
    let fighting = world(vec![creep(1, 0, 5, 5, 10)], vec![core]);
    assert_eq!(until.check(&fighting, 0), None);
    let mut e = Evaluation::start(2);
    assert_eq!(e.next(&until, &fighting), EvalStep::Resolve);
    assert_eq!(e.next(&until, &fighting), EvalStep::Resolve);
    assert_eq!(
        e.next(&until, &fighting),
        EvalStep::Stop { ticks: 2, reason: StopReason::Timeout }
    );
    let both = world(vec![], vec![]);
    let mut f = Evaluation::start(5);
    assert_eq!(
        f.next(&until, &both),
        EvalStep::Stop { ticks: 0, reason: StopReason::ObjectivesComplete }
    );
}

#[test]
fn plans_decide_what_is_fielded() {
    let plan = |winnable, mode, has_composition| PlanSummary { winnable, mode, has_composition };
    assert_eq!(choose_fielded_comp(plan(true, AssaultMode::Breach, true), "ok").0, Fielded::Sized);
    assert_eq!(
        choose_fielded_comp(plan(false, AssaultMode::Breach, false), "no").0,
        Fielded::Ceiling
    );
    assert_eq!(max_role_parts(&vec![true, true, false]), 2);
    assert_eq!(max_role_parts(&vec![false; 25]), 0);
    let ceiling = siege_ceiling(10, 8);
    assert_eq!(ceiling.iter().filter(|s| s.role == SquadRole::Dismantler).count(), 3);
    assert_eq!(ceiling.iter().filter(|s| s.role == SquadRole::Healer).count(), 5);
    assert!(siege_ceiling(0, 0).is_empty());
    assert!(managed_assault_comp(5, 5).iter().any(|s| s.role == SquadRole::RangedDps));
}

#[test]
fn undefended_runs_do_not_end_on_a_wiped_defender() {
    let s = RandomDefendedBase { n: 1 }.generate(0);
    let calm = run_until_self_play(&s, &s.objectives[0], false);
    let defended = run_until_self_play(&s, &s.objectives[0], true);
    assert!(calm.0.len() < defended.0.len());
    assert_eq!(run_until_for(&s, &s.objectives[0]).check(&s.world, 0), Some(StopReason::SideWiped(0)));
}

#[test]
fn scores_prefer_the_kill_and_the_survivors() {
    let before = world(vec![creep(1, 0, 5, 5, 1000)], vec![structure(100, StructureKind::Spawn, 25, 500)]);
    let killed = world(vec![creep(1, 0, 5, 5, 800)], vec![]);
    let stalled = world(vec![creep(1, 0, 5, 5, 800)], vec![structure(100, StructureKind::Spawn, 25, 400)]);
    let a = assault_score(&before, &killed, 100, 0, 10);
    let b = assault_score(&before, &stalled, 100, 0, 10);
    assert!(a.objective_destroyed && !b.objective_destroyed);
    assert_eq!((a.objective_hp_removed, b.objective_hp_removed), (500, 100));
    assert_eq!(a.attacker_hp_retained, 800);
    assert!(a.score > b.score);
    assert!(assault_score(&before, &killed, 100, 0, 20).score < a.score);
}

#[test]
fn profiles_follow_the_world() {
    let s = RandomDefendedBase { n: 4 }.generate(3);
    let p = derive_profile(&s.world, s.defender_owner, &s.objectives[0]);
    let armed = s.world.towers.iter().filter(|t| t.energy >= 10).count();
    assert_eq!(p.towers.len(), armed, "a tower without energy is no threat");
    assert!(p.objective_hits > 0);
    assert!(defender_force(&s).is_none(), "a base without creeps has no force");
    assert!(!coordination(None));
    assert_eq!(sizing_energy(3000, 5300), 3000);
    assert_eq!(sizing_energy(9000, 5300), 5300);
    let mut guarded = RandomDefendedBase { n: 4 }.generate(3);
    let mut g = creep(50, guarded.defender_owner, 20, 20, 700);
    g.attack_power = 30;
    g.ranged_attack_power = 10;
    g.heal_power = 12;
    guarded.world.creeps.push(g);
    let (f, _) = enemy_force_of(&guarded);
    assert_eq!((f.dps, f.heal, f.hits, f.count), (40, 12, 700, 1));
}

fn observation(winnable: bool, mode: AssaultMode, comp: bool, b: Option<bool>) -> OracleObservation {
    OracleObservation { plan: PlanSummary { winnable, mode, has_composition: comp }, breached: b }
}

#[test]
fn every_observation_has_its_row() {
    let br = AssaultMode::Breach;
    let rows = [
        (observation(true, AssaultMode::Drain, true, None), CalibrationRow::DrainWinnable),
        (observation(true, br, true, Some(true)), CalibrationRow::Breached),
        (observation(true, br, true, Some(false)), CalibrationRow::FalsePositive),
        (observation(true, br, true, None), CalibrationRow::Unplaceable),
        (observation(true, br, false, None), CalibrationRow::Unaffordable),
        (observation(false, br, false, Some(true)), CalibrationRow::FalseNegative),
        (observation(false, br, false, Some(false)), CalibrationRow::CorrectDefer),
        (observation(false, br, false, None), CalibrationRow::CorrectDefer),
    ];
    let mut v = OracleCalibration::new();
    for (o, row) in rows {
        assert_eq!(classify(o), row);
        let verdict = v.judge(o);
        assert_eq!(
            verdict.pass,
            !matches!(row, CalibrationRow::FalsePositive | CalibrationRow::FalseNegative)
        );
    }
    let t: Calibration = v.tally();
    assert_eq!((t.scenarios, t.fielded, t.false_positives), (8, 2, 1));
    assert_eq!((t.deferred, t.false_negatives, t.unfieldable, t.drain_winnable), (3, 1, 2, 1));
    assert!(!t.fp_gate() && !t.fn_gate());
    let text = t.report("0.500", "0.333");
    assert!(text.contains("8 scenarios") && text.contains("fp_rate 0.500"), "{text}");
}

#[test]
fn gates_hold_at_their_limits() {
    let t = Calibration {
        scenarios: 105,
        fielded: 100,
        false_positives: 1,
        deferred: 5,
        false_negatives: 1,
        unfieldable: 0,
        drain_winnable: 0,
    };
    assert!(t.fp_gate() && t.fn_gate());
    assert!(!Calibration { false_positives: 2, ..t }.fp_gate());
    assert!(!Calibration { false_negatives: 2, ..t }.fn_gate());
}

#[test]
fn sizing_wins_is_a_swappable_lens_over_the_same_generator() {
    let mut v = SizingWins { attempted: 0, won: 0, winning_spawn_cost: 0 };
    let won = v.judge(observation(true, AssaultMode::Breach, true, Some(true)), 1200);
    let lost = v.judge(observation(true, AssaultMode::Breach, true, Some(false)), 900);
    let skipped = v.judge(observation(false, AssaultMode::Breach, false, None), 0);
    assert!(won.pass && !lost.pass && skipped.pass);
    assert_eq!((v.attempted, v.won, v.winning_spawn_cost), (2, 1, 1200));
}

#[test]
fn creep_clears_are_counted() {
    let mut v = CreepClearWins { attempted: 0, won: 0, winning_spawn_cost: 0 };
    let cleared = clear_outcome(StopReason::SideWiped(1), 1, 40, 2000, 10, 4);
    let wiped = clear_outcome(StopReason::SideWiped(0), 1, 60, 2000, 10, 4);
    assert!(cleared.cleared && !wiped.cleared);
    assert!(v.judge(Some(cleared)).detail.contains("cleared @ t40 (10 ranged, 4 heal)"));
    assert!(!v.judge(Some(wiped)).pass);
    v.judge(None);
    assert_eq!((v.attempted, v.won, v.winning_spawn_cost), (2, 1, 2000));
}

#[test]
fn managed_squad_navigates_to_the_objective() {
    let s = RandomDefendedBase { n: 1 }.generate(0);
    let o = &s.objectives[0];
    let mut w = RandomDefendedBase { n: 1 }.generate(0).world;
    let v = ManagedSquadIntegration;
    assert!(!v.judge(&w, 0, o, StopReason::Timeout, 9).pass, "nobody came near");
    let mut c = creep(1, 0, 1, 1, 100);
    c.pos = o.pos;
    w.creeps.push(c);
    let verdict = v.judge(&w, 0, o, StopReason::Timeout, 9);
    assert!(verdict.pass, "{}", verdict.detail);
    assert!(v.unfielded().pass, "nothing was put to the test");
    assert!(SelfPlay.unfielded().pass);
}

fn is_of_use(body: &[Part]) -> bool {
    body.iter()
        .any(|p| matches!(p, Part::Attack | Part::RangedAttack | Part::Heal | Part::Work))
}

#[test]
fn small_bodies_are_of_use_too() {
    for energy in (80..=700).step_by(20) {
        for seed in 0..200 {
            let body = random_body(&mut Rng::seeded(seed), energy);
            let cost: u32 = body.iter().map(|&p| part_cost(p)).sum();
            assert!(cost <= energy && body.len() <= 50, "{energy}/{seed}: {body:?}");
            assert!(is_of_use(&body), "{energy}/{seed}: {body:?}");
        }
    }
}

#[test]
fn no_body_of_use_costs_less_than_an_attack() {
    for seed in 0..200 {
        assert!(!is_of_use(&random_body(&mut Rng::seeded(seed), 79)));
    }
    assert_eq!(part_cost(Part::Attack), 80);
}
