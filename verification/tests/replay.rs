use combat_eval::evaluate::StopReason;
use combat_eval::foreman_capture::{
    capture, combat_kind, count_kinds, to_plan, CapturedBase, PlannedItem, PlannedKind,
};
use combat_eval::generate::{Generator, RandomDefendedBase};
use combat_eval::lifecycle::Engagement;
use combat_eval::position::WPos;
use combat_eval::raid::TowerOrder;
use combat_eval::replays::{
    calibration_verdict, managed_verdict, render_managed_replay, render_self_play_replay,
    self_play_outcome, self_play_verdict, RecordedRun,
};
use combat_eval::report::{contact_sheet, dashboard_picks, Entry, Source};
use combat_eval::siege::{CombatAction, Order};
use combat_eval::terrain_import::TerrainFixture;
use combat_eval::tower_fire::{
    combined_tower_intents, defender_creeps, healy_target, is_living, lag_result, squad_focus_for_towers, target_self_heal,
    towers_alone_intents, u7_world, KillStep, KillWatch, SquadFocus, TowerDecision, U7Result,
    MAX_TICKS, TARGET_ID,
};
use combat_eval::visualize::{
    kind_index, replay_to_html, replay_to_widget, split_replay, CombatRecording, Frame,
    FrameCreep, FrameStructure, FrameTower, IntentRecord, ReplayMeta, RoomTerrain, Shapes,
};
use combat_eval::world::{
    pos_in, CombatWorld, SimCreep, SimStructure, SimTower, StructureKind,
};

const W1N1: (i32, i32) = (-2, -2);

fn shapes() -> Shapes {
    Shapes {
        spawn: "[1]".into(),
        tower: "[2]".into(),
        rampart: "[3]".into(),
        wall: "[4]".into(),
    }
}

fn sim_creep(id: u32, pos: WPos, hits: u32) -> SimCreep {
    SimCreep {
        id,
        owner: 0,
        pos,
        hits,
        hits_max: hits,
        attack_power: 0,
        ranged_attack_power: 0,
        heal_power: 0,
        dismantle_power: 50,
    }
}

fn frame(tick: u32) -> Frame {
    Frame {
        tick,
        creeps: vec![
            FrameCreep {
                id: 1,
                pos: pos_in(W1N1, 23, 25),
                owner: 0,
                hits: 300,
                hits_max: 300,
                composition: [1, 0, 0, 1, 0, 0, 1],
            },
            FrameCreep {
                id: 2,
                pos: pos_in(W1N1, 23, 24),
                owner: 0,
                hits: 200,
                hits_max: 200,
                composition: [0, 0, 0, 0, 0, 1, 1],
            },
        ],
        structures: vec![FrameStructure {
            pos: pos_in(W1N1, 24, 25),
            kind: StructureKind::Rampart,
            owner: Some(1),
            hits: 3000 - 50 * tick,
            hits_max: 3000,
        }],
        towers: vec![],
        intents: vec![IntentRecord {
            id: 1,
            actions: Some("[Dismantle(1000001)]".into()),
            mv: None,
            reason: None,
        }],
        deaths: vec![],
        destroyed_structures: vec![],
    }
}

fn smoke_recording() -> (CombatRecording, CombatWorld) {
    let world = CombatWorld {
        creeps: vec![
            sim_creep(1, pos_in(W1N1, 23, 25), 300),
            sim_creep(2, pos_in(W1N1, 23, 24), 200),
        ],
        structures: vec![
            SimStructure {
                id: 1_000_000,
                kind: StructureKind::Spawn,
                owner: Some(1),
                pos: pos_in(W1N1, 25, 25),
                hits: 5000,
                hits_max: 5000,
            },
            SimStructure {
                id: 1_000_001,
                kind: StructureKind::Rampart,
                owner: Some(1),
                pos: pos_in(W1N1, 24, 25),
                hits: 3000,
                hits_max: 3000,
            },
        ],
        towers: vec![],
        controllers: vec![],
        safe_mode_owner: None,
    };
    (CombatRecording { frames: (0..4).map(frame).collect() }, world)
}

#[test]
fn single_file_replay_embeds_composition_and_player() {
    let (rec, world) = smoke_recording();
    let meta = ReplayMeta::from_world(&world, &vec![], "smoke", Some("test".into()));
    let html = replay_to_html(&rec, &meta, &shapes());
    assert!(html.starts_with("<!doctype html>") && html.trim_end().ends_with("</html>"));
    assert!(html.contains("IbexRenderer") && html.contains("IbexReplay.start"));
    assert!(html.contains("window.REPLAY="));
    assert!(
        html.contains("[1,0,23,25,0,300,300,[1,0,0,1,0,0,1]]"),
        "creep id+composition embedded"
    );
    assert!(html.contains("\"structs\":[[0,24,25,2,1,3000,3000]]"));
    assert!(html.contains("\"notes\":[\"#1 [Dismantle(1000001)]\"]"));
    assert!(html.contains("\"shapes\":[[1],[2],[3],[4]]"));
    assert!(html.contains(
        "{\"title\":\"smoke\",\"verdict\":\"test\",\"rooms\":[{\"name\":\"W1N1\",\"walls\":[],\"swamps\":[]}]}"
    ));
}

#[test]
fn write_replay_splits_into_resources() {
    let (rec, world) = smoke_recording();
    let meta = ReplayMeta::from_world(&world, &vec![], "split", None);
    let files = split_replay("engagement", &rec, &meta, &shapes());
    let names: Vec<&str> = files.iter().map(|f| f.name.as_str()).collect();
    assert_eq!(names, ["renderer.js", "player.js", "engagement.data.js", "engagement.html"]);
    let shell = &files[3].text;
    assert!(
        shell.contains("<script src=\"renderer.js\">")
            && shell.contains("<script src=\"engagement.data.js\">")
    );
    assert!(files[2].text.starts_with("window.REPLAY="));
    assert!(files[2].text.contains("\"verdict\":null"));
}

#[test]
fn widget_downsamples_frames() {
    let (rec, world) = smoke_recording();
    let meta = ReplayMeta::from_world(&world, &vec![], "w", None);
    let frag = replay_to_widget(&rec, &meta, &shapes(), 2);
    assert!(!frag.contains("<!doctype"), "fragment has no doctype");
    assert!(frag.contains("IbexReplay.start") && frag.contains("window.REPLAY="));
    let shown = |t: u32| frag.contains(&format!("{{\"t\":{t},"));
    assert!(shown(0) && !shown(1) && shown(2) && shown(3), "every second frame, and the last");
}

#[test]
fn rooms_are_sorted_by_name_and_named_by_quadrant() {
    let at = |room| sim_creep(1, pos_in(room, 1, 1), 10);
    let world = CombatWorld {
        creeps: vec![at((0, 0)), at((-1, -1)), at((12, -4)), at((0, 0)), at((-128, 127))],
        structures: vec![],
        towers: vec![SimTower { id: 1, owner: 1, pos: pos_in((2, 3), 0, 49), energy: 7, hits: 9 }],
        controllers: vec![],
        safe_mode_owner: None,
    };
    let terrain = vec![RoomTerrain { room: (2, 3), walls: vec![(4, 5)], swamps: vec![(6, 7)] }];
    let meta = ReplayMeta::from_world(&world, &terrain, "t", None);
    let names: Vec<&str> = meta.rooms.iter().map(|r| r.name.as_str()).collect();
    assert_eq!(names, ["E0S0", "E12N3", "E2S3", "W0N0", "W127S127"]);
    assert_eq!(meta.rooms[2].walls, vec![(4, 5)]);
    assert_eq!(meta.rooms[2].swamps, vec![(6, 7)]);
    assert!(meta.rooms[0].walls.is_empty());
}

#[test]
fn recordings_add_the_rooms_they_cross() {
    let (_, world) = smoke_recording();
    let mut f = frame(0);
    f.creeps[0].pos = pos_in((-3, -2), 49, 25);
    f.towers.push(FrameTower { pos: pos_in(W1N1, 9, 9), owner: 1, energy: 50, hits: 60 });
    f.deaths = vec![1, 2];
    f.destroyed_structures = vec![1_000_001];
    f.intents = vec![
        IntentRecord { id: 4, actions: None, mv: None, reason: Some("idle".into()) },
        IntentRecord {
            id: 5,
            actions: None,
            mv: Some("Left".into()),
            reason: Some("a \"way\"".into()),
        },
    ];
    let rec = CombatRecording { frames: vec![f] };
    let meta = ReplayMeta::from_world_and_recording(&world, &rec, &vec![], "x", None);
    assert_eq!(meta.rooms.len(), 2);
    assert_eq!(meta.rooms[1].name, "W2N1");
    let html = replay_to_html(&rec, &meta, &shapes());
    assert!(html.contains("[1,1,49,25,0,300,300,"));
    assert!(html.contains("\"towers\":[[0,9,9,1,50,60]]"));
    assert!(html.contains("\"notes\":[\"#5  mv:Left  [a \\\"way\\\"]\",\"\\u2620 deaths: [1, 2]\",\"\\u2691 destroyed: [1000001]\"]"));
    let bare = ReplayMeta::from_world(&world, &vec![], "x", None);
    assert!(replay_to_html(&rec, &bare, &shapes()).contains("[1,-1,49,25,0,300,300,"));
}

#[test]
fn drawings_have_their_places() {
    assert_eq!(
        [StructureKind::Spawn, StructureKind::Tower, StructureKind::Rampart, StructureKind::Wall]
            .map(kind_index),
        [0, 1, 2, 3]
    );
}

#[test]
fn verdicts_are_put_in_words() {
    let end = |stop| Some(Engagement { stop, ticks: 12 });
    assert_eq!(
        calibration_verdict("FIELD", end(StopReason::ObjectivesComplete)),
        "FIELD → BREACHED @ t12"
    );
    assert_eq!(calibration_verdict("DEFER", None), "DEFER — could not place on the bed");
    assert_eq!(
        managed_verdict(end(StopReason::SideWiped(0))),
        "managed ranged assault → attackers wiped @ t12"
    );
    assert_eq!(managed_verdict(None), "managed assault — could not field at the entry");
    assert_eq!(
        self_play_verdict(end(StopReason::SideWiped(0)), 0),
        "self-play (both sides managed) → attacker wiped @ t12"
    );
    assert_eq!(self_play_outcome(end(StopReason::SideWiped(1)), 0), "defender wiped @ t12");
    assert_eq!(self_play_outcome(None, 0), "could not field");
}

#[test]
fn engagements_replay_under_their_label() {
    let s = RandomDefendedBase { n: 3 }.generate(2);
    let run = RecordedRun {
        end: Some(Engagement { stop: StopReason::Timeout, ticks: 4 }),
        recording: smoke_recording().0,
    };
    let managed = render_managed_replay(&s, &run, &vec![], &shapes());
    assert!(managed.contains("\"title\":\"random-defended-base#2\""));
    assert!(managed.contains("managed ranged assault → held (timed out) @ t4"));
    let played = render_self_play_replay(&s, &run, &vec![], &shapes());
    assert!(played.contains("self-play (both sides managed) → timed out @ t4"));
}

// The dashboard.

#[test]
fn dashboard_writes_an_index() {
    let picks = dashboard_picks(2);
    assert_eq!(picks.len(), 14);
    assert_eq!(picks[1].name(), "selfplay-designed-1");
    assert_eq!((picks[3].source, picks[3].index), (Source::Permutations, 13));
    assert_eq!(picks[5].name(), "selfplay-perm-75");
    assert_eq!((picks[13].name(), picks[13].lens()), ("calib-rdb-7".to_string(), "calibration"));
    let page = contact_sheet(&vec![Entry {
        file: "a&b.html".into(),
        title: "<base>".into(),
        lens: picks[0].lens(),
        verdict: "held".into(),
        pass: false,
    }]);
    assert!(page.starts_with("<!doctype html>") && page.ends_with("</table></body></html>"));
    assert!(page.contains(
        "<tr><td><span class=\"no\">●</span> <a href=\"a&amp;b.html\">&lt;base&gt;</a></td><td class=\"lens\">self-play</td><td>held</td></tr>"
    ));
}

// Captured bases.

fn fixture(room: &str) -> TerrainFixture {
    TerrainFixture {
        room: room.into(),
        terrain: "0".repeat(2500),
        controller: (5, 6),
        sources: vec![],
        mineral: None,
    }
}

#[test]
fn foreman_cache_realizes() {
    let item = |kind, x, y| PlannedItem { kind, x, y };
    let plan = vec![
        item(PlannedKind::Spawn, 1, 2),
        item(PlannedKind::Other, 3, 4),
        item(PlannedKind::Rampart, 5, 6),
        item(PlannedKind::Wall, 7, 8),
    ];
    let base = capture(&fixture("W1N1"), Ok(plan)).unwrap();
    assert_eq!(base.room, "W1N1");
    assert_eq!(base.controller, (5, 6));
    assert_eq!(base.structures.len(), 3);
    assert_eq!((base.structures[1].kind.as_str(), base.structures[1].x), ("rampart", 5));
    let c = count_kinds(&base.structures);
    assert_eq!((c.spawns, c.towers, c.ramparts, c.walls), (1, 0, 1, 1));
    let err = capture(&fixture("W2N2"), Err("no anchor".into())).unwrap_err();
    assert_eq!(err, "planning W2N2 failed: no anchor");
    assert_eq!(combat_kind(PlannedKind::Tower), Some("tower"));
    assert_eq!(combat_kind(PlannedKind::Other), None);
}

#[test]
fn only_missing_rooms_are_planned() {
    let fixtures = vec![fixture("A"), fixture("B"), fixture("C"), fixture("D")];
    let cached = vec![CapturedBase {
        room: "B".into(),
        terrain: String::new(),
        controller: (0, 0),
        structures: vec![],
    }];
    assert_eq!(to_plan(&fixtures, &cached, 2), vec![0, 2]);
    assert_eq!(to_plan(&fixtures, &cached, usize::MAX), vec![0, 2, 3]);
    assert!(to_plan(&fixtures, &cached, 0).is_empty());
}

// Squad and tower fire.

/// A stand-in for the engine: what is dealt in a tick, and what the target heals.
fn ticks_to_kill(dps: u32) -> Option<u32> {
    let mut world = u7_world(true, true);
    let (mut watch, mut step) = KillWatch::start(MAX_TICKS);
    while step == KillStep::Running {
        let heal = if target_self_heal(&world).is_some() { 240 } else { 0 };
        let t = world.creeps.iter_mut().find(|c| c.id == TARGET_ID).unwrap();
        t.hits = (t.hits + heal).min(t.hits_max + dps).saturating_sub(dps);
        step = watch.next(&world);
    }
    step.ticks()
}

#[test]
fn u7_combined_fire_beats_either_alone() {
    let squad: u32 = u7_world(true, false).creeps.iter().map(|c| c.ranged_attack_power).sum();
    assert_eq!(squad, 210);
    let r = U7Result {
        squad_alone: ticks_to_kill(squad),
        towers_alone: ticks_to_kill(150),
        combined: ticks_to_kill(squad + 150),
    };
    assert_eq!(r.squad_alone, None, "the squad alone is out-healed (210 dps < 240 heal)");
    assert_eq!(r.towers_alone, None, "the tower alone is out-healed (150 dps < 240 heal)");
    assert!(r.combined.is_some(), "combined fire kills the healy target ({:?})", r.combined);
    assert!(r.combined_wins(), "combined fire beats either alone — {r:?}");
}

#[test]
fn u7_tower_target_id_reresolves_after_the_focus_moves() {
    let priced = pos_in(W1N1, 25, 25);
    let mut moved = u7_world(true, true);
    for c in moved.creeps.iter_mut() {
        if c.id == TARGET_ID {
            c.pos = pos_in(W1N1, 26, 25);
        }
    }
    let r = lag_result(priced, &moved, Some(TARGET_ID)).unwrap();
    assert_ne!(r.moved_pos, r.priced_pos, "the focus stepped one tile");
    assert!(r.id_reresolves_to_focus);
    assert!(!lag_result(priced, &moved, None).unwrap().id_reresolves_to_focus);
    for c in moved.creeps.iter_mut() {
        c.hits = 0;
    }
    assert!(lag_result(priced, &moved, None).is_none());
}

#[test]
fn combined_fire_has_to_be_faster() {
    let r = |a, b, c| U7Result { squad_alone: a, towers_alone: b, combined: c }.combined_wins();
    assert!(r(None, None, Some(9)));
    assert!(r(Some(10), None, Some(9)));
    assert!(!r(Some(9), None, Some(9)));
    assert!(!r(None, Some(3), Some(9)));
    assert!(!r(None, None, None));
}

#[test]
fn towers_alone_fire_at_the_nearest() {
    let w = u7_world(false, true);
    assert_eq!(towers_alone_intents(&w, 0), vec![TowerOrder { tower: 200, target: TARGET_ID }]);
    assert!(towers_alone_intents(&w, 1).is_empty(), "the other side has no tower");
    let mut two = u7_world(false, true);
    let mut near = sim_creep(7, pos_in(W1N1, 25, 40), 10);
    near.owner = 1;
    two.creeps.push(near);
    assert_eq!(towers_alone_intents(&two, 0), vec![TowerOrder { tower: 200, target: 7 }]);
}

#[test]
fn decisions_become_orders() {
    let w = u7_world(true, true);
    let d = |tower_idx, target| TowerDecision { tower_idx, target };
    let orders =
        combined_tower_intents(&w, 0, &vec![d(0, Some(5)), d(0, None), d(3, Some(6))]);
    assert_eq!(orders, vec![TowerOrder { tower: 200, target: 5 }]);
    assert_eq!(
        squad_focus_for_towers(Some(100), &vec![70, 70, 70]),
        Some(SquadFocus { id: 100, squad_dps: 210 })
    );
    assert_eq!(squad_focus_for_towers(Some(100), &vec![]), None);
    assert_eq!(squad_focus_for_towers(None, &vec![70]), None);
    assert!(is_living(&w, TARGET_ID) && !is_living(&w, 999));
    assert_eq!(
        target_self_heal(&w),
        Some(Order { creep: TARGET_ID, action: CombatAction::Heal(TARGET_ID) })
    );
}

#[test]
fn measured_bodies_may_be_large() {
    let c = healy_target(pos_in((-2, -2), 25, 25), 2000, 10_000);
    assert_eq!((c.hits, c.hits_max, c.heal_power), (1_200_000, 1_200_000, 24_000));
    let file = defender_creeps(2, 5000);
    assert_eq!((file[1].id, file[1].hits, file[1].ranged_attack_power), (2, 1_000_000, 50_000));
}
