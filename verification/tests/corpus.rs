use combat_eval::corpus::{
    assemble, cases, core_tile, entry_tile, flavour, front_tiles, garrison_tiles, open_component,
    support_tiles, symmetric_terrain, tower_tile, Aim, Case,
};
use combat_eval::corpus_index::{
    count_walls, index_page, is_terrain_real, progress_line, rooms_in_html, shortfall,
    shows_frames, tally, Row, Shortfall,
};
use combat_eval::scenario::ObjectiveKind;
use combat_eval::terrain_import::{encode_terrain, CombatTerrain, TerrainFixture};
use combat_eval::world::{pos_in, StructureKind};

const ROOM: (i32, i32) = (-2, -2);

fn fixture(t: &CombatTerrain) -> TerrainFixture {
    TerrainFixture {
        room: "W1N1".into(),
        terrain: encode_terrain(t),
        controller: (10, 10),
        sources: Vec::new(),
        mineral: None,
    }
}

#[test]
fn the_left_half_is_mirrored_and_the_landings_are_clear() {
    let mut real = CombatTerrain::open_room();
    real.set_wall(20, 3, true);
    real.set_swamp(13, 7, true);
    real.set_wall(40, 40, true);
    real.set_wall(4, 20, true);
    let t = symmetric_terrain(&real);
    assert!(t.is_wall(20, 3) && t.is_wall(29, 3));
    assert!(t.is_swamp(13, 7) && t.is_swamp(36, 7));
    assert!(!t.is_wall(40, 40), "the right half is not read");
    assert!(!t.is_wall(4, 20) && !t.is_wall(45, 20), "a landing is always open");
}

#[test]
fn the_component_is_what_can_be_walked_to() {
    let mut t = CombatTerrain::open_room();
    for y in 0..50 {
        t.set_wall(30, y, true);
    }
    let tiles = open_component(&t, (25, 25));
    assert_eq!(tiles.len(), 30 * 50);
    assert_eq!(tiles[..5], [(25, 25), (26, 25), (24, 25), (25, 26), (25, 24)]);
    assert!(tiles.iter().all(|c| c.0 < 30));
    t.set_wall(25, 25, true);
    assert_eq!(open_component(&t, (25, 25))[0], (24, 24), "the first open tile around a wall");
}

#[test]
fn a_walled_room_has_no_ground() {
    let mut t = CombatTerrain::open_room();
    for y in 0..50 {
        for x in 0..50 {
            t.set_wall(x, y, true);
        }
    }
    let tiles = open_component(&t, (25, 25));
    assert!(tiles.is_empty());
    assert_eq!(core_tile(&tiles), (34, 25));
    assert_eq!(entry_tile(&tiles), (6, 25));
    assert_eq!(front_tiles(&tiles, (34, 25)), vec![(34, 25)]);
    assert_eq!(tower_tile(&tiles, (34, 25)), None);
}

#[test]
fn the_ground_is_chosen_around_the_core() {
    let tiles = open_component(&CombatTerrain::open_room(), (25, 25));
    assert_eq!(core_tile(&tiles), (34, 25));
    assert_eq!(entry_tile(&tiles).0, 0);
    assert_eq!(front_tiles(&tiles, (34, 25)), vec![(33, 24), (33, 25), (33, 26), (34, 24)]);
    assert_eq!(support_tiles(&tiles, (34, 25)), vec![(32, 23), (32, 24), (32, 25), (33, 23)]);
    let spots = garrison_tiles(&tiles, (34, 25), 3);
    assert_eq!(spots.len(), 3);
    assert!(spots.iter().all(|c| (33..=36).contains(&c.0)));
    let east: Vec<(u8, u8)> = vec![(3, 1), (9, 2), (9, 4), (5, 5)];
    assert_eq!(core_tile(&east), (9, 4), "the last of the easternmost");
    assert_eq!(entry_tile(&east), (3, 1));
}

#[test]
fn the_corpus_takes_turns() {
    let all = cases(13);
    assert_eq!(all.len(), 30);
    let rooms: Vec<usize> = all.iter().step_by(3).map(|c| c.fixture).collect();
    assert_eq!(rooms, vec![0, 2, 4, 6, 8, 10, 12, 1, 5, 9]);
    assert_eq!(
        all[4],
        Case { seed: 4, fixture: 2, aim: Aim::Core, attacker: 2, defender: 5 }
    );
    assert!(cases(0).is_empty());
    assert_eq!(cases(100).len(), 36);
    assert!(all.iter().all(|c| c.attacker < 6 && c.defender < 6 && c.fixture < 13));
}

#[test]
fn a_match_is_named_after_its_case() {
    let all = cases(13);
    assert_eq!(all[0].file("W1N1"), "00_selfplay_w1n1-ranged-heavy-open-clear-melee-heal");
    assert_eq!(all[0].label("W1N1"), "self-play W1N1 | ranged-heavy [open-clear] vs melee+heal [hold]");
    assert_eq!(all[29].file("--W 1!"), "29_selfplay_w-1-small-skirmish-towered-core-ranged-heavy");
}

#[test]
fn rosters_are_drawn_from_their_flavour() {
    let f = flavour(4);
    assert_eq!((f.name, f.energy, f.size, f.salt), ("big-brawl", 12_900, 5, 71));
    let a = f.roster(7);
    assert_eq!(a.len(), 5);
    assert_eq!(a, f.roster(7));
    assert_ne!(a, f.roster(8));
}

#[test]
fn a_match_is_laid_out_in_its_room() {
    let f = fixture(&CombatTerrain::open_room());
    let c = Case { seed: 2, fixture: 0, aim: Aim::ToweredCore, attacker: 2, defender: 3 };
    let m = assemble(&c, &f);
    let s = &m.scenario;
    assert_eq!(s.objectives[0].kind, ObjectiveKind::Raze);
    assert_eq!(s.objectives[0].pos, pos_in(ROOM, 34, 25));
    assert_eq!(s.world.structures.len(), 2);
    assert_eq!(s.world.structures[0].hits, 30_000);
    assert_eq!(s.world.structures[1].kind, StructureKind::Rampart);
    assert_eq!(s.world.structures[1].pos, pos_in(ROOM, 33, 25));
    assert_eq!(s.world.towers.len(), 1);
    assert_eq!(s.world.towers[0].energy, 600);
    assert_eq!(s.world.towers[0].id, s.world.structures[0].id + 2);
    assert_eq!((s.member_energy, s.onsite_budget, s.seed), (5_600, 1400, 2));
    assert_eq!(m.garrison.len(), 2);
    assert_eq!(m.garrison[1].id, 10_001);
    assert_eq!((m.defenders.len(), m.attackers.len()), (2, 3));

    let clear = Case { aim: Aim::Clear, ..c };
    let m = assemble(&clear, &f);
    assert_eq!(m.scenario.objectives[0].kind, ObjectiveKind::Secure);
    assert_eq!(m.scenario.world.structures[0].hits, 6_000);
    assert!(m.scenario.world.towers.is_empty());
}

fn page(s: &str) -> Vec<char> {
    s.chars().collect()
}

#[test]
fn a_page_lists_the_rooms_that_it_draws() {
    let rooms = |s: &str| -> Vec<String> {
        rooms_in_html(&page(s)).iter().map(|n| n.iter().collect()).collect()
    };
    let one = "x{\"name\":\"W9N1\",\"name\":\"E10S3\"},{\"name\":\"W9N1\"}";
    assert_eq!(rooms(one), ["E10S3", "W9N1"]);
    assert_eq!(rooms("{\"name\":\"W1\"}{\"name\":\"W10N10\"}{\"name\":\"W1N1\"}"), [
        "W1", "W10N10", "W1N1"
    ]);
    let others = "{\"name\":\"\"}{\"name\":\"N1\"}{\"name\":\"W1 N1\"}{\"name\":\"W12345678\"}";
    assert!(rooms(others).is_empty());
    assert_eq!(rooms("{\"name\":\"W1N1\"}{\"name\":\"W2N2"), ["W1N1"], "the last is not closed");
    assert!(rooms("").is_empty());
    assert!(shows_frames(&page("a\"frames\":[{b")) && !shows_frames(&page("\"frames\":[]")));
}

#[test]
fn real_ground_has_many_walls() {
    let mut t = CombatTerrain::open_room();
    for k in 0..60 {
        t.set_wall(k % 50, k / 50, true);
    }
    assert_eq!(count_walls(&t), 60);
    assert!(!is_terrain_real(60, true) && is_terrain_real(61, true) && !is_terrain_real(61, false));
}

fn row(terrain_real: bool) -> Row {
    Row {
        file: "00_a.html".into(),
        fixture_room: "W1N1".into(),
        att: "mixed",
        def: "melee+heal",
        objective: "core",
        outcome: "won <fast>".into(),
        rooms: 1,
        terrain_real,
        frames: true,
    }
}

#[test]
fn the_index_lists_the_corpus() {
    let html = index_page(&vec![row(true), row(false)]);
    assert!(html.starts_with("<!doctype html><html lang=\"en\"><head><meta charset=\"utf-8\"><title>Real-AI self-play combat renders</title><style>body{margin:0;"));
    assert!(html.contains("<h1>Real-AI self-play combat renders — 2 scenarios</h1>"));
    assert!(html.contains("<span class=\"real\">1/2</span> renders embed the real fixture wall field"));
    assert!(html.contains(
        "<tr><td class=\"muted\">1</td><td><a href=\"00_a.html\">00_a.html</a></td><td class=\"fx\">W1N1</td><td>mixed</td><td>melee+heal</td><td>core</td><td>won &lt;fast&gt;</td><td class=\"muted\">1</td><td class=\"ok\">real✓</td></tr>"
    ));
    assert!(html.ends_with("<td class=\"no\">??</td></tr></table></body></html>"));
    assert_eq!(
        progress_line(3, &row(true), 412),
        format!(
            "{:>2} {:6} obj={:13} {:14} vs {:14} -> {:20} rooms={} walls={} {}",
            3, "W1N1", "core", "mixed", "melee+heal", "won <fast>", 1, 412, "REAL-TERRAIN✓"
        )
    );
}

#[test]
fn a_corpus_may_fall_short() {
    let corpus = |n: usize, on_real: usize| (0..n).map(|i| row(i < on_real)).collect::<Vec<Row>>();
    assert_eq!(shortfall(&corpus(19, 19)), Some(Shortfall::TooSmall { rows: 19 }));
    assert_eq!(shortfall(&corpus(20, 15)), None);
    let short = shortfall(&corpus(20, 14)).unwrap();
    assert_eq!(short, Shortfall::TooFewReal { on_real: 14, rows: 20 });
    assert_eq!(short.message(), "too few renders embed real terrain (14/20)");
    assert_eq!(Shortfall::TooSmall { rows: 19 }.message(), "corpus too small (19 < 20)");
    assert_eq!(tally(&corpus(20, 14)), (14, 20));
    assert!(cases(13).len() >= 20);
}

#[test]
fn a_match_is_fought_in_the_room_that_its_fixture_names() {
    let c = Case { seed: 2, fixture: 0, aim: Aim::Core, attacker: 2, defender: 3 };
    let room = |name: &str| {
        let f = TerrainFixture { room: name.into(), ..fixture(&CombatTerrain::open_room()) };
        assemble(&c, &f).scenario.objectives[0].room
    };
    assert_eq!(room("E3S7"), (3, 7));
    assert_eq!(room("w0n0"), (-1, -1));
    assert_eq!(room("W127N127"), (-128, -128));
    assert_eq!(room("E127s127"), (127, 127));
    assert_eq!(room("E+3S07"), (3, 7), "a sign and leading zeros are read");
    assert_eq!(room("E-3S7"), (-3, 7));
    assert_eq!(room("W-1N-1"), (0, 0));
    for odd in ["", "E", "E3", "ES7", "E3S", "X3S7", "E3S7 ", "W128N1", "E128S1", "E3S7S1", "EN3S7"]
    {
        assert_eq!(room(odd), ROOM, "{odd:?} names no room");
    }
    assert_eq!(room("E99999999999S1"), ROOM);
}
