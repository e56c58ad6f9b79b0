use combat_eval::evaluate::{Condition, EvalStep, Evaluation, RunUntil, StopReason};
use combat_eval::fielding::{run_until_assault, run_until_self_play};
use combat_eval::generate::DEFENDER;
use combat_eval::raid::{
    assault_inputs, concentrates_fire, grade_assault, stronghold_tower_intents, BorderGauntlet,
    RungOutcome, TowerOrder,
};
use combat_eval::rng::Rng;
use combat_eval::scenario::Scenario;
use combat_eval::stronghold::{
    body_parts, defender_bodies, rampart_hits, BodyKind, BoostTier, StrongholdScenario,
    StrongholdTerrain,
};
use combat_eval::terrain_import::CombatTerrain;
use combat_eval::world::{pos_in, CombatWorld, SimCreep, SimTower, StructureKind};

#[test]
fn templates_and_populations_match_the_engine_ground_truth() {
    let tower_counts = [0usize, 1, 2, 3, 4, 6];
    let blankets = [0usize, 4, 9, 16, 25, 45];
    for level in 1..=5u8 {
        let (s, defenders) =
            StrongholdScenario::build(level, StrongholdTerrain::Open, false, 1, 1);
        let towers = s.world.towers.len();
        assert_eq!(towers, tower_counts[level as usize], "L{level} tower count");
        let ramparts =
            s.world.structures.iter().filter(|st| st.kind == StructureKind::Rampart).count();
        assert_eq!(ramparts, blankets[level as usize], "L{level} rampart blanket");
        let cores =
            s.world.structures.iter().filter(|st| st.kind == StructureKind::InvaderCore).count();
        assert_eq!(cores, 1, "L{level} exactly one core");
        let expected_defenders = [0usize, 0, 1, 2, 4, 9];
        assert_eq!(defenders.len(), expected_defenders[level as usize], "L{level} defender count");
        if level == 5 {
            assert!(
                defenders
                    .iter()
                    .all(|d| body_parts(d.body).iter().any(|p| p.boost == BoostTier::T3)),
                "L5 defenders carry T3 boosts"
            );
        }
    }
}

#[test]
fn strongholds_are_labelled_and_repeat() {
    let (a, _) = StrongholdScenario::build(3, StrongholdTerrain::Open, false, 1, 1);
    let (b, _) = StrongholdScenario::build(3, StrongholdTerrain::Open, false, 1, 1);
    assert_eq!(format!("{a:?}"), format!("{b:?}"));
    let (m, _) = StrongholdScenario::build(3, StrongholdTerrain::Chokepoint, true, 1, 9);
    assert_ne!(a.label, m.label);
    assert_ne!(a.objectives[0].entry, m.objectives[0].entry);
}

#[test]
fn ramparts_grow_with_the_level() {
    let hits: Vec<u32> = (1..=5).map(rampart_hits).collect();
    assert!(hits.windows(2).all(|w| w[0] <= w[1]), "{hits:?}");
    assert!(hits[0] > 0);
}

#[test]
fn bodies_fit_a_creep() {
    for k in [
        BodyKind::WeakDefender,
        BodyKind::FullDefender,
        BodyKind::BoostedDefender,
        BodyKind::BoostedRanger,
        BodyKind::FullBoostedMelee,
        BodyKind::FullBoostedRanger,
        BodyKind::Fortifier,
        BodyKind::RangedCamper,
    ] {
        let n: u32 = body_parts(k).iter().map(|p| p.count).sum();
        assert!(n > 0 && n <= 50, "{k:?} has {n} parts");
    }
    let a = defender_bodies(4, &mut Rng::seeded(3));
    let b = defender_bodies(4, &mut Rng::seeded(3));
    assert_eq!(format!("{a:?}"), format!("{b:?}"));
}

fn creep(id: u32, owner: u32, x: u8, hits: u32) -> SimCreep {
    SimCreep {
        id,
        owner,
        pos: pos_in((-2, -2), x, 25),
        hits,
        hits_max: 1000,
        attack_power: 0,
        ranged_attack_power: 0,
        heal_power: 0,
        dismantle_power: 0,
    }
}

#[test]
fn stronghold_towers_concentrate_on_the_most_hurt() {
    let world = CombatWorld {
        creeps: vec![creep(1, 0, 40, 1000), creep(2, 0, 20, 1000), creep(3, 1, 25, 1000)],
        structures: vec![],
        towers: vec![
            SimTower { id: 9, owner: 1, pos: pos_in((-2, -2), 18, 25), energy: 1000, hits: 3000 },
            SimTower { id: 10, owner: 1, pos: pos_in((-2, -2), 22, 25), energy: 1000, hits: 3000 },
            SimTower { id: 11, owner: 1, pos: pos_in((-2, -2), 22, 26), energy: 5, hits: 3000 },
        ],
        controllers: vec![],
        safe_mode_owner: None,
    };
    let table: Vec<u32> = (0..=20).map(|r| 600 - 20 * r).collect();
    let orders = stronghold_tower_intents(&world, DEFENDER, &table);
    assert_eq!(
        orders,
        vec![TowerOrder { tower: 9, target: 2 }, TowerOrder { tower: 10, target: 2 }]
    );
    assert!(concentrates_fire(4) && !concentrates_fire(3));
}

#[test]
fn assaults_are_graded() {
    let (s, _) = StrongholdScenario::build(1, StrongholdTerrain::Open, false, 1, 1);
    let inputs = assault_inputs(&s);
    assert_eq!(inputs.towers.len(), 1);
    assert!(inputs.enemy.is_none());
    assert!(inputs.objective_hits > 0 && inputs.breach_hits > 0);
    let grade = |stop| grade_assault(&s, &s.world, stop, 12);
    let mut fallen = s.world.clone();
    fallen.structures.retain(|x| x.id != s.objectives[0].id);
    assert_eq!(
        grade_assault(&s, &fallen, StopReason::ObjectivesComplete, 12),
        RungOutcome::Killed { ticks: 12 }
    );
    assert_eq!(grade(StopReason::SideWiped(0)), RungOutcome::AttackerWiped { ticks: 12 });
    assert_eq!(grade(StopReason::Timeout), RungOutcome::Timeout { reached: false });
}

#[test]
fn gauntlets_grow_with_the_grade() {
    let open = CombatTerrain::open_room();
    let sizes: Vec<usize> =
        (1..=4).map(|g| BorderGauntlet::campers(g, &open).unwrap().len()).collect();
    assert!(sizes.windows(2).all(|w| w[0] <= w[1]), "{sizes:?}");
    assert!(sizes[0] >= 1);
    let mut sealed = CombatTerrain::open_room();
    for y in 0..50 {
        for x in 0..50 {
            sealed.set_wall(x, y, true);
        }
    }
    assert!(BorderGauntlet::campers(1, &sealed).is_none());
    let s = BorderGauntlet::build(2, 3, 5);
    assert_eq!(s.label, "border-gauntlet-g2#s5");
    assert_eq!(s.world.structures.len(), 1);
}

/// A stronghold under attack whose defenders are all dead.
fn undefended() -> Scenario {
    let (mut s, _) = StrongholdScenario::build(2, StrongholdTerrain::Open, false, 1, 1);
    s.world.creeps = vec![creep(1, 0, 40, 1000)];
    s
}

#[test]
fn a_wiped_defender_is_no_kill_while_the_core_stands() {
    let s = undefended();
    assert!(s.world.structures.iter().any(|x| x.id == s.objectives[0].id && x.hits > 0));
    let grade = |stop| grade_assault(&s, &s.world, stop, 12);
    assert_eq!(grade(StopReason::SideWiped(DEFENDER)), RungOutcome::Timeout { reached: false });
    assert_eq!(grade(StopReason::ObjectivesComplete), RungOutcome::Timeout { reached: false });
}

#[test]
fn an_assault_goes_on_past_a_wiped_defender() {
    let s = undefended();
    let o = &s.objectives[0];
    let until = run_until_assault(&s, o);
    assert_eq!(until.0.len(), 2);
    assert!(matches!(until.0[0], Condition::Destroyed(_)));
    assert_eq!(until.check(&s.world, 5), None);
    assert_eq!(
        run_until_self_play(&s, o, true).check(&s.world, 5),
        Some(StopReason::SideWiped(DEFENDER))
    );
    let mut run = Evaluation::start(3);
    assert_eq!(run.next(&until, &s.world), EvalStep::Resolve);
    assert_eq!(run.next(&until, &s.world), EvalStep::Resolve);
    let mut fallen = s.world.clone();
    fallen.structures.retain(|x| x.id != o.id);
    let EvalStep::Stop { reason: stop, ticks } = run.next(&until, &fallen) else {
        panic!("the core is down")
    };
    assert_eq!(grade_assault(&s, &fallen, stop, ticks), RungOutcome::Killed { ticks });
    let mut lost = s.world.clone();
    lost.creeps.clear();
    assert_eq!(until.check(&lost, 5), Some(StopReason::SideWiped(0)));
    assert_eq!(until.check(&{ lost.structures.clear(); lost }, 5), Some(StopReason::ObjectivesComplete));
}
