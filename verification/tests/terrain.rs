use combat_eval::caves::{connected, ChokepointScan, ProbeStep};
use combat_eval::position::WPos;
use combat_eval::staging::{
    occupied_tiles, offsets_to_try, place_at_entry, place_squad, FieldSlot, SquadRole,
};
use combat_eval::terrain_import::{
    align_fixture, decode_fast, decode_terrain, encode_terrain, fast_to_combat, snap_objects,
    snap_to_open, CombatTerrain, TerrainFixture,
};
use combat_eval::world::{pos_in, SimCreep};

fn text(tiles: &[(usize, char)]) -> String {
    let mut s = vec!['0'; 2500];
    for (i, c) in tiles {
        s[*i] = *c;
    }
    s.into_iter().collect()
}

/// A room with a wall across it that has a gap in the middle.
fn fixture() -> TerrainFixture {
    let mut s = vec!['0'; 2500];
    for y in 0..50 {
        if !(20..30).contains(&y) {
            s[y * 50 + 20] = '1';
            s[y * 50 + 21] = '1';
        }
        s[y * 50 + 40] = '2';
    }
    TerrainFixture {
        room: "W1N1".to_string(),
        terrain: s.into_iter().collect(),
        controller: (20, 5),
        sources: vec![(20, 6), (10, 10)],
        mineral: Some((21, 40)),
    }
}

#[test]
fn decode_roundtrips_a_known_pattern() {
    let mut t = CombatTerrain::open_room();
    t.set_wall(0, 0, true);
    t.set_wall(49, 49, true);
    t.set_wall(10, 3, true);
    t.set_swamp(5, 5, true);
    t.set_swamp(25, 25, true);
    let round = decode_terrain(&encode_terrain(&t));
    assert_eq!(round.wall_tiles(), t.wall_tiles(), "walls survive encode→decode");
    assert_eq!(round.swamp_tiles(), t.swamp_tiles(), "swamps survive encode→decode");
    assert_eq!(round.wall_tiles().len(), 3);
}

#[test]
fn decode_places_tiles_at_the_right_coords() {
    let t = decode_terrain(&text(&[(160, '1'), (2, '2')]));
    assert!(t.is_wall(10, 3) && t.wall_tiles().len() == 1, "wall at (10,3)");
    assert!(t.is_swamp(2, 0) && t.swamp_tiles().len() == 1, "swamp at (2,0)");
    let t2 = decode_terrain(&text(&[(0, '3')]));
    assert!(t2.is_wall(0, 0) && t2.swamp_tiles().is_empty(), "'3' decodes as wall");
}

#[test]
fn fast_to_combat_matches_decode() {
    let f = fixture();
    let via_fast = fast_to_combat(&decode_fast(&f.terrain));
    let direct = decode_terrain(&f.terrain);
    assert_eq!(via_fast.wall_tiles(), direct.wall_tiles(), "{}: fast/direct walls agree", f.room);
    assert_eq!(via_fast.swamp_tiles(), direct.swamp_tiles());
    assert!(!direct.wall_tiles().is_empty());
}

#[test]
fn snap_recovers_objects_within_one_tile() {
    let f = fixture();
    let terrain = decode_terrain(&f.terrain);
    let snapped = snap_to_open(&terrain, f.controller.0, f.controller.1, &vec![]);
    let cheby = (snapped.0 as i32 - f.controller.0 as i32)
        .abs()
        .max((snapped.1 as i32 - f.controller.1 as i32).abs());
    assert!(cheby <= 1, "{} controller snap moved {cheby} tiles (expected <=1)", f.room);
    assert!(!terrain.is_wall(snapped.0, snapped.1));
}

#[test]
fn fixtures_are_real_navigable_rooms() {
    let f = align_fixture(fixture());
    assert_eq!(f.terrain.chars().count(), 2500, "{} terrain is a full 50x50 room", f.room);
    assert!(!f.sources.is_empty(), "{} carries source metadata", f.room);
    let terrain = decode_terrain(&f.terrain);
    assert!(terrain.wall_tiles().len() > 50);
    assert!(terrain.wall_tiles().len() < 2400);
    assert!(!terrain.is_wall(f.controller.0, f.controller.1));
    for &(sx, sy) in &f.sources {
        assert!(!terrain.is_wall(sx, sy), "source ({sx},{sy}) snapped to a clear tile");
    }
    let mut all: Vec<(u8, u8)> = vec![f.controller];
    all.extend(&f.sources);
    if let Some(m) = f.mineral {
        assert!(!terrain.is_wall(m.0, m.1));
        all.push(m);
    }
    let distinct: std::collections::HashSet<_> = all.iter().collect();
    assert_eq!(distinct.len(), all.len(), "objects snap to distinct tiles");
    assert_eq!(f.sources[1], (10, 10), "an object on open ground stays");
}

#[test]
fn snapping_keeps_objects_apart() {
    let t = CombatTerrain::open_room();
    let out = snap_objects(&t, &vec![(5, 5), (5, 5), (5, 5)]);
    assert_eq!(out.len(), 3);
    assert_eq!(out[0], (5, 5));
    assert!(out[0] != out[1] && out[1] != out[2] && out[0] != out[2]);
}

fn walls_of(t: &CombatTerrain) -> Vec<bool> {
    let mut v = vec![false; 2500];
    for (x, y) in t.wall_tiles() {
        v[y as usize * 50 + x as usize] = true;
    }
    v
}

#[test]
fn chokepoint_terrain_stays_connected() {
    let mut sealed = CombatTerrain::open_room();
    let mut gapped = CombatTerrain::open_room();
    for y in 0..50 {
        sealed.set_wall(38, y, true);
        if y != 7 {
            gapped.set_wall(38, y, true);
        }
    }
    let mut scan = ChokepointScan::start(7, (25, 25), (46, 25), false);
    match scan.offer(&sealed) {
        ProbeStep::Next(seed) => assert_eq!(seed, 8),
        _ => panic!("a sealed approach is passed over"),
    }
    match scan.offer(&gapped) {
        ProbeStep::Accepted(t) => {
            assert!(!t.wall_tiles().is_empty(), "caves actually generated");
            assert!(connected(&walls_of(&t), (46, 25), (25, 25)), "entry→core connected");
        }
        _ => panic!("a gap opens the approach"),
    }
    let mut multi = ChokepointScan::start(11, (25, 25), (25, 25), true);
    match multi.offer(&gapped) {
        ProbeStep::Accepted(t) => assert!(
            (1..49u8).any(|y| !t.is_wall(0, y) && !t.is_wall(49, y)),
            "multi-room: an open both-sides border column exists"
        ),
        _ => panic!("open borders are accepted"),
    }
}

#[test]
fn chokepoint_scan_gives_up_in_the_end() {
    let mut sealed = CombatTerrain::open_room();
    for y in 0..50 {
        sealed.set_wall(38, y, true);
    }
    let mut scan = ChokepointScan::start(1, (25, 25), (46, 25), false);
    let mut offers = 0;
    loop {
        offers += 1;
        match scan.offer(&sealed) {
            ProbeStep::Next(_) => {}
            ProbeStep::Exhausted => break,
            ProbeStep::Accepted(_) => panic!("sealed terrain is never accepted"),
        }
    }
    assert!(offers > 1);
}

#[test]
fn connection_goes_both_ways_and_round_corners() {
    let mut t = CombatTerrain::open_room();
    for y in 0..49 {
        t.set_wall(10, y, true);
    }
    let w = walls_of(&t);
    assert!(connected(&w, (0, 0), (20, 0)));
    assert!(connected(&w, (20, 0), (0, 0)));
    t.set_wall(10, 49, true);
    assert!(!connected(&walls_of(&t), (0, 0), (20, 0)));
}

#[test]
fn a_walk_may_start_at_the_rim() {
    let open = walls_of(&CombatTerrain::open_room());
    assert!(connected(&open, (50, 25), (25, 25)), "one step leads into the room");
    assert!(connected(&open, (50, 50), (50, 50)), "nothing needs to be walked");
    assert!(!connected(&open, (25, 25), (50, 25)), "no step leads out of the room");
    assert!(!connected(&open, (60, 25), (25, 25)), "the room is out of reach");
}

#[test]
fn scans_know_their_ground() {
    let s = ChokepointScan::of_stronghold(9, true);
    assert_eq!((s.seed, s.core, s.entry, s.multi_room), (9, (25, 25), (46, 25), true));
    let g = ChokepointScan::of_gauntlet(9);
    assert_eq!((g.seed, g.core, g.entry, g.multi_room), (9, (10, 25), (46, 25), true));
}

fn slot(role: SquadRole) -> FieldSlot {
    FieldSlot { role, buildable: true }
}

#[test]
fn squads_are_placed_by_role() {
    let front = vec![pos_in((-2, -2), 24, 24), pos_in((-2, -2), 25, 24)];
    let support = vec![pos_in((-2, -2), 23, 23)];
    let placed = place_squad(
        &front,
        &support,
        &vec![slot(SquadRole::Healer), slot(SquadRole::Dismantler)],
    );
    assert_eq!(placed, Some(vec![support[0], front[0]]));
    let too_many = vec![slot(SquadRole::Healer), slot(SquadRole::Healer)];
    assert_eq!(place_squad(&front, &support, &too_many), None);
    let unbuildable = vec![FieldSlot { role: SquadRole::Dismantler, buildable: false }];
    assert_eq!(place_squad(&front, &support, &unbuildable), None);
}

#[test]
fn entries_fill_ring_by_ring() {
    let t = CombatTerrain::open_room();
    let tiles = place_at_entry(&t, &vec![], (2, 25), 3, 10).unwrap();
    assert_eq!(tiles, vec![(2, 25), (3, 25), (2, 26)]);
    let taken = place_at_entry(&t, &vec![(2, 25)], (2, 25), 1, 10).unwrap();
    assert_eq!(taken, vec![(3, 25)]);
    let mut sealed = CombatTerrain::open_room();
    for y in 0..50 {
        for x in 0..50 {
            sealed.set_wall(x, y, true);
        }
    }
    assert_eq!(place_at_entry(&sealed, &vec![], (2, 25), 1, 10), None);
    assert_eq!(offsets_to_try(2)[0], (0, 0));
    assert_eq!(offsets_to_try(2).len(), 25);
}

#[test]
fn only_the_rooms_own_creeps_take_tiles() {
    let creep = |id, pos: WPos| SimCreep {
        id,
        owner: 0,
        pos,
        hits: 100,
        hits_max: 100,
        attack_power: 0,
        ranged_attack_power: 0,
        heal_power: 0,
        dismantle_power: 0,
    };
    let creeps = vec![creep(1, pos_in((-2, -2), 3, 4)), creep(2, pos_in((1, 1), 5, 6))];
    assert_eq!(occupied_tiles(&creeps, (-2, -2)), vec![(3, 4)]);
}
