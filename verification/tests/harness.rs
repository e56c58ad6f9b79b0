use combat_eval::evaluate::StopReason;
use combat_eval::fielding::{AssaultMode, PlanSummary};
use combat_eval::generate::{draw_base, Generator, RandomDefendedBase};
use combat_eval::lifecycle::Engagement;
use combat_eval::position::WPos;
use combat_eval::profile::{derive_profile, DefenseProfile};
use combat_eval::replays::{calibration_replay, RecordedRun};
use combat_eval::scenario::Scenario;
use combat_eval::suite::run_suite;
use combat_eval::validate::{
    calibrate, Calibration, ObservedCalibration, OracleObservation,
};
use combat_eval::visualize::{CombatRecording, Frame, FrameCreep, Shapes};

// A stand-in for the sizing oracle and the engine: a base is winnable when its towers
// can be out-healed, and a siege breaches what is left to chew within the budget.
fn observe(s: &Scenario) -> OracleObservation {
    let p: DefenseProfile = derive_profile(&s.world, s.defender_owner, &s.objectives[0]);
    let strength = s.member_energy / 10;
    let winnable = !p.safe_mode && (p.towers.len() as u32) * 300 <= strength;
    let breached = p.breach_hits + p.objective_hits <= strength * s.onsite_budget;
    OracleObservation {
        plan: PlanSummary {
            winnable,
            mode: AssaultMode::Breach,
            has_composition: winnable,
        },
        breached: Some(breached && winnable),
    }
}

fn observations(n: u32) -> Vec<OracleObservation> {
    let g = RandomDefendedBase { n };
    (0..n).map(|i| observe(&g.generate(i))).collect()
}

fn shapes() -> Shapes {
    Shapes {
        spawn: "[]".to_string(),
        tower: "[]".to_string(),
        rampart: "[]".to_string(),
        wall: "[]".to_string(),
    }
}

#[test]
fn calibration_is_deterministic() {
    let a: Calibration = calibrate(64, observations(64));
    let b: Calibration = calibrate(64, observations(64));
    assert_eq!(format!("{:?}", a), format!("{:?}", b));
    assert_eq!(a.scenarios, 64);
}

#[test]
fn run_suite_visits_every_scenario() {
    let generator = RandomDefendedBase { n: 16 };
    let mut validator = ObservedCalibration::new(observations(16));
    let report = run_suite(&generator, &mut validator);
    assert_eq!(report.verdicts.len(), 16);
    assert_eq!(report.scenarios, 16);
    assert_eq!(validator.tally().scenarios, 16);
    assert_eq!(report.generator, "random-defended-base");
    assert_eq!(report.validator, "oracle-calibration");
    assert_eq!(report.passed as usize, report.verdicts.iter().filter(|v| v.pass).count());
}

#[test]
fn calibration_replay_renders_html() {
    let frame = Frame {
        tick: 0,
        creeps: vec![FrameCreep {
            id: 1,
            pos: WPos { wx: -76, wy: -76 },
            owner: 0,
            hits: 100,
            hits_max: 100,
            composition: [0, 0, 0, 1, 0, 0, 0],
        }],
        structures: vec![],
        towers: vec![],
        intents: vec![],
        deaths: vec![],
        destroyed_structures: vec![],
    };
    let run = RecordedRun {
        end: Some(Engagement { stop: StopReason::Timeout, ticks: 1 }),
        recording: CombatRecording { frames: vec![frame] },
    };
    let html = calibration_replay(7, "FIELD breach", &run, &shapes());
    assert!(html.starts_with("<!doctype html>") && html.trim_end().ends_with("</html>"));
    assert!(html.contains("window.REPLAY=") && html.contains("IbexReplay.start"));
    assert!(html.contains("\"frames\":[{"), "embeds a non-empty frame array");
    assert!(html.contains("\"verdict\":"));
    assert!(html.contains("\"title\":\"random-defended-base#7\""));
    assert!(html.contains("FIELD breach → held (timed out) @ t1"));
    assert!(html.contains("\"name\":\"W1N1\""));
}

#[test]
fn a_siege_that_was_not_placed_replays_no_frames() {
    let run = RecordedRun { end: None, recording: CombatRecording::new() };
    let html = calibration_replay(3, "DEFER", &run, &shapes());
    assert!(html.contains("\"frames\":[]"));
    assert!(html.contains("DEFER — could not place on the bed"));
}

#[test]
fn seeded_bases_differ_and_repeat() {
    let a = draw_base(0);
    let b = draw_base(0);
    assert_eq!(format!("{:?}", a), format!("{:?}", b));
    let all: Vec<String> = (0..20).map(|i| format!("{:?}", draw_base(i))).collect();
    assert!(all.iter().any(|x| *x != all[0]));
}
