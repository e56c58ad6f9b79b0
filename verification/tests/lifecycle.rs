use combat_eval::churn::{ChurnRequest, ChurnRun, ChurnTarget};
use combat_eval::colony::{
    ColonyFormingScenario, EconomyPressure, Home, LaneOffer, LaneReply, QueuedSpawn, SpawnedUnit,
};
use combat_eval::evaluate::StopReason;
use combat_eval::extended::{
    ExtendedRequest, ExtendedRun, ExtendedTravel, LifetimeQuery, RallyRules,
};
use combat_eval::defended::{DefendedRequest, DefendedRun};
use combat_eval::fielding::{AssaultMode, Fielded, PlanSummary};
use combat_eval::forming::{FormingOutcome, FormingRequest, FormingRun};
use combat_eval::lease::{ChurnOutcome, ReconcileAction, ReconcileSnapshot, RetireReason};
use combat_eval::lifecycle::{
    after_engagement, after_forming, build_energy, drains, roster_choice, AfterForming,
    Engagement, LifecycleOutcome,
};
use combat_eval::position::WPos;
use combat_eval::spatial::{SpatialRequest, SpatialRun, SpatialTravel};

// Stand-ins for the outside kernels. A lane spawns the most urgent entry that its home
// can ever afford, and waits for it where the bank is still too small.

fn priority(bits: u32) -> f32 {
    f32::from_bits(bits)
}

fn run_lane(offer: &LaneOffer) -> LaneReply {
    let mut queue: Vec<QueuedSpawn> = offer.queue.clone();
    queue.sort_by(|a, b| priority(b.priority).partial_cmp(&priority(a.priority)).unwrap());
    let mut reply =
        LaneReply { available_energy: offer.available_energy, spawned: Vec::new() };
    for q in queue {
        if q.body_cost > offer.energy_capacity {
            continue;
        }
        if q.body_cost <= reply.available_energy {
            reply.available_energy -= q.body_cost;
            reply.spawned.push(SpawnedUnit { id: q.id, completes_in: q.part_count * 3 });
        }
        return reply;
    }
    reply
}

/// The bodies of a roster: every slot at one cost and size.
struct Roster {
    cost: u32,
    parts: u32,
    priority: u32,
}

impl Roster {
    /// The slots that are not filled are spawned.
    fn spawns(&self, filled: &[bool]) -> Vec<QueuedSpawn> {
        (0..filled.len())
            .filter(|i| !filled[*i])
            .map(|i| QueuedSpawn {
                priority: self.priority,
                body_cost: self.cost,
                part_count: self.parts,
                id: i as u64,
            })
            .collect()
    }
}

fn give_up(mark_unwinnable: bool) -> ReconcileAction {
    ReconcileAction::Retire { reason: RetireReason::GaveUp, withdraw: false, mark_unwinnable }
}

/// The lease: kept while the squad forms, travels, holds or fights, and given up once it
/// lapsed.
fn reconcile(s: &ReconcileSnapshot) -> ReconcileAction {
    if s.retreated_from_contact {
        return give_up(true);
    }
    let forming = s.forming
        && s.forming_budget_remaining
        && (s.forming_progress || s.forming_in_flight);
    let traveling =
        s.traveling && s.travel_progress && s.travel_budget_remaining && !s.engaged_once;
    if forming || traveling || s.holding_station || s.declaiming {
        return ReconcileAction::KeepRefreshLease;
    }
    if s.engaged_once && s.in_target_room && !s.has_focus {
        return ReconcileAction::Retire {
            reason: RetireReason::Resolved,
            withdraw: true,
            mark_unwinnable: false,
        };
    }
    if s.deadline_lapsed {
        return give_up(false);
    }
    ReconcileAction::Keep
}

fn rally_gate(present: usize, slots: usize, uncontested: bool) -> bool {
    if uncontested {
        present >= 1
    } else {
        present >= slots && slots > 0
    }
}

fn tiles(a: WPos, b: WPos) -> u32 {
    (a.wx - b.wx).unsigned_abs().max((a.wy - b.wy).unsigned_abs())
}

const RULES: RallyRules = RallyRules { gather_radius: 5, fight_buffer: 100, renew_target_ttl: 1400 };

fn gathered(positions: &[WPos], rally: WPos) -> usize {
    positions.iter().filter(|p| tiles(**p, rally) <= RULES.gather_radius).count()
}

fn run_forming(s: &ColonyFormingScenario, roster: &Roster) -> FormingOutcome {
    let (mut run, mut ask) = FormingRun::start(s);
    loop {
        ask = match ask {
            FormingRequest::Ready { present, slots } => run.ready_known(present >= slots),
            FormingRequest::Field { filled } => run.field_given(roster.spawns(&filled)),
            FormingRequest::RunLane(offer) => {
                let reply = run_lane(&offer);
                run.lane_done(&reply)
            }
            FormingRequest::Finished(o) => return o,
        };
    }
}

fn run_lifecycle_churn(
    s: &ColonyFormingScenario,
    roster: &Roster,
    target: ChurnTarget,
) -> ChurnOutcome {
    let (mut run, mut ask) = ChurnRun::start(s, target);
    loop {
        ask = match ask {
            ChurnRequest::FieldCheck { filled } => {
                run.field_checked(!roster.spawns(&filled).is_empty())
            },
            ChurnRequest::Gate { present, slots, uncontested } => {
                run.gated(rally_gate(present, slots, uncontested))
            }
            ChurnRequest::Reconcile(snap) => run.reconciled(reconcile(&snap)),
            ChurnRequest::FieldSpawn { filled } => run.field_given(roster.spawns(&filled)),
            ChurnRequest::RunLane(offer) => {
                let reply = run_lane(&offer);
                run.lane_done(&reply)
            }
            ChurnRequest::Finished(o) => return o,
        };
    }
}

fn run_lifecycle_churn_spatial(
    s: &ColonyFormingScenario,
    roster: &Roster,
    plan: SpatialTravel,
) -> ChurnOutcome {
    let (mut run, mut ask) = SpatialRun::start(s, plan);
    loop {
        ask = match ask {
            SpatialRequest::FieldCheck { filled } => {
                run.field_checked(!roster.spawns(&filled).is_empty())
            },
            SpatialRequest::Gate { positions, slots, uncontested } => {
                run.gated(rally_gate(positions.len(), slots, uncontested))
            }
            SpatialRequest::Gather { positions, rally, slots, uncontested, has_fighter } => {
                let count = gathered(&positions, rally);
                let quorum = has_fighter && rally_gate(count, slots, uncontested);
                run.gather_known(quorum, count)
            }
            SpatialRequest::Reconcile(snap) => run.reconciled(reconcile(&snap)),
            SpatialRequest::FieldSpawn { filled } => run.field_given(roster.spawns(&filled)),
            SpatialRequest::RunLane(offer) => {
                let reply = run_lane(&offer);
                run.lane_done(&reply)
            }
            SpatialRequest::Finished(o) => return o,
        };
    }
}

/// The rally lies one room short of the target, on the side of the first member.
fn shared_rally(positions: &[WPos], target: WPos) -> WPos {
    let from = positions.first().copied().unwrap_or(target);
    let dx = (from.wx - target.wx).signum();
    WPos { wx: target.wx + 50 * dx, wy: target.wy }
}

fn lives_long_enough(q: &LifetimeQuery) -> bool {
    q.asked && q.ttl >= (q.rooms_to_rally + q.rally_to_target) * 50 + RULES.fight_buffer
}

fn run_lifecycle_churn_extended(
    s: &ColonyFormingScenario,
    roster: &Roster,
    plan: ExtendedTravel,
) -> ChurnOutcome {
    let (mut run, mut ask) = ExtendedRun::start(s, plan, RULES);
    loop {
        ask = match ask {
            ExtendedRequest::FieldCheck { filled } => {
                run.field_checked(!roster.spawns(&filled).is_empty())
            },
            ExtendedRequest::Gate { positions, slots, uncontested } => {
                run.gated(rally_gate(positions.len(), slots, uncontested))
            }
            ExtendedRequest::Rally { positions, target, uncontested: _ } => {
                run.rallied(shared_rally(&positions, target))
            }
            ExtendedRequest::Gather {
                reachable,
                effective_slots,
                positions,
                rally,
                uncontested,
                has_fighter,
            } => {
                let quorum = has_fighter
                    && rally_gate(gathered(&reachable, rally), effective_slots, uncontested);
                run.gather_known(quorum, gathered(&positions, rally))
            }
            ExtendedRequest::Lifetimes(queries) => {
                let commits: Vec<bool> = queries.iter().map(lives_long_enough).collect();
                run.lifetimes_known(&commits)
            }
            ExtendedRequest::Reconcile(snap) => run.reconciled(reconcile(&snap)),
            ExtendedRequest::FieldSpawn { filled } => run.field_given(roster.spawns(&filled)),
            ExtendedRequest::RunLane(offer) => {
                let reply = run_lane(&offer);
                run.lane_done(&reply)
            }
            ExtendedRequest::Finished(o) => return o,
        };
    }
}

// Forming.

fn roster(priority: f32) -> Roster {
    Roster { cost: 3000, parts: 30, priority: priority.to_bits() }
}

fn forming(
    homes: usize,
    income: u32,
    combat_priority: f32,
    member_ttl: u32,
    renew: bool,
    budget: u32,
) -> ColonyFormingScenario {
    ColonyFormingScenario {
        slots: 4,
        homes: (0..homes)
            .map(|_| Home { energy_capacity: 5300, income, start_energy: 2000 })
            .collect(),
        economy: EconomyPressure {
            hauler: Some((75.0f32.to_bits(), 1000)),
            miner: None,
            miner_period: 0,
        },
        combat_priority: combat_priority.to_bits(),
        per_member_cap: 3000,
        budget_ticks: budget,
        member_ttl,
        renew,
    }
}

fn scenario(combat_priority: f32) -> ColonyFormingScenario {
    forming(2, 300, combat_priority, 1500, false, 1500)
}

#[test]
fn medium_priority_combat_stalls_below_economy() {
    match run_forming(&scenario(50.0), &roster(50.0)) {
        FormingOutcome::Stalled { filled, of } => {
            assert!(filled < of, "MEDIUM combat stalls below economy ({filled}/{of})")
        }
        FormingOutcome::Completed { ticks } => {
            panic!("MEDIUM combat should NOT complete (did at tick {ticks})")
        }
    }
}

#[test]
fn above_economy_combat_completes_the_roster() {
    match run_forming(&scenario(87.5), &roster(87.5)) {
        FormingOutcome::Completed { .. } => {}
        FormingOutcome::Stalled { filled, of } => {
            panic!("above-economy combat should complete ({filled}/{of})")
        }
    }
}

#[test]
fn single_room_forms_the_roster() {
    match run_forming(&forming(1, 400, 87.5, 1500, false, 3000), &roster(87.5)) {
        FormingOutcome::Completed { .. } => {}
        o => panic!("single-room above-economy should form, got {o:?}"),
    }
}

#[test]
fn multi_room_forms_faster_than_single_room() {
    let single = run_forming(&forming(1, 400, 87.5, 1500, false, 3000), &roster(87.5));
    let multi = run_forming(&forming(4, 400, 87.5, 1500, false, 3000), &roster(87.5));
    match (single, multi) {
        (FormingOutcome::Completed { ticks: s }, FormingOutcome::Completed { ticks: m }) => {
            assert!(m < s, "multi-room parallel spawning forms faster ({m} < {s})");
        }
        other => panic!("both single + multi room should complete, got {other:?}"),
    }
}

#[test]
fn stuck_forming_loses_early_members_without_renew() {
    match run_forming(&forming(1, 200, 87.5, 200, false, 4000), &roster(87.5)) {
        FormingOutcome::Stalled { filled, of } => {
            assert!(filled < of, "early members die → stuck ({filled}/{of})")
        }
        FormingOutcome::Completed { ticks } => {
            panic!("a too-slow form must NOT complete without renew (did at {ticks})")
        }
    }
}

#[test]
fn renew_completes_the_stuck_form() {
    match run_forming(&forming(1, 200, 87.5, 200, true, 4000), &roster(87.5)) {
        FormingOutcome::Completed { .. } => {}
        FormingOutcome::Stalled { filled, of } => {
            panic!("renew should keep the roster alive + complete ({filled}/{of})")
        }
    }
}

#[test]
fn forming_is_deterministic() {
    assert_eq!(
        run_forming(&scenario(87.5), &roster(87.5)),
        run_forming(&scenario(87.5), &roster(87.5))
    );
}

// The churn lifecycle.

fn economy() -> EconomyPressure {
    EconomyPressure { hauler: Some((75.0f32.to_bits(), 1000)), miner: None, miner_period: 0 }
}

fn contended() -> ColonyFormingScenario {
    ColonyFormingScenario {
        slots: 2,
        homes: vec![Home { energy_capacity: 5300, income: 4, start_energy: 2400 }],
        economy: economy(),
        combat_priority: 85.0f32.to_bits(),
        per_member_cap: 3000,
        budget_ticks: 6000,
        member_ttl: 1500,
        renew: false,
    }
}

fn offense_roster() -> Roster {
    Roster { cost: 1200, parts: 8, priority: 85.0f32.to_bits() }
}

fn single_slot() -> ColonyFormingScenario {
    ColonyFormingScenario {
        slots: 1,
        homes: vec![Home { energy_capacity: 5300, income: 300, start_energy: 2000 }],
        economy: economy(),
        combat_priority: 85.0f32.to_bits(),
        per_member_cap: 3000,
        budget_ticks: 1500,
        member_ttl: 1500,
        renew: false,
    }
}

#[test]
fn oversized_defense_roster_churns_never_deploys() {
    let target = ChurnTarget {
        travel_ticks: 30,
        uncontested: false,
        empty_dtos_on_arrival_ticks: 0,
        ..Default::default()
    };
    let slow = Roster { cost: 2300, parts: 20, priority: 85.0f32.to_bits() };
    let out = run_lifecycle_churn(&contended(), &slow, target);
    assert!(
        matches!(out, ChurnOutcome::DeployedAndEngaged { .. }),
        "the oversized defense roster must ride the forming lease to completion + deploy, got {out:?}"
    );
}

#[test]
fn single_slot_offense_deploys_within_lease() {
    let target = ChurnTarget {
        travel_ticks: 500,
        uncontested: true,
        empty_dtos_on_arrival_ticks: 0,
        ..Default::default()
    };
    assert_eq!(single_slot().slots, 1);
    let out = run_lifecycle_churn(&single_slot(), &offense_roster(), target);
    assert!(
        matches!(out, ChurnOutcome::DeployedAndEngaged { .. }),
        "the 1-slot uncontested squad must hold its lease through travel + engage, got {out:?}"
    );
}

#[test]
fn arrived_squad_with_empty_dtos_does_not_lapse() {
    let target = ChurnTarget {
        travel_ticks: 20,
        uncontested: true,
        empty_dtos_on_arrival_ticks: 600,
        ..Default::default()
    };
    let out = run_lifecycle_churn(&single_slot(), &offense_roster(), target);
    assert!(
        matches!(out, ChurnOutcome::DeployedAndEngaged { .. }),
        "an arrived squad must force a DTO re-read + engage, not lapse on empty DTOs, got {out:?}"
    );
}

#[test]
fn an_empty_window_of_any_length_changes_nothing() {
    for uncontested in [false, true] {
        for is_defend in [false, true] {
            for arrival_has_towers in [false, true] {
                let run = |k| {
                    let target = ChurnTarget {
                        travel_ticks: 20,
                        uncontested,
                        is_defend,
                        arrival_has_towers,
                        empty_dtos_on_arrival_ticks: k,
                        ..Default::default()
                    };
                    run_lifecycle_churn(&single_slot(), &offense_roster(), target)
                };
                for k in [1, 600, u32::MAX] {
                    assert_eq!(run(0), run(k));
                }
            }
        }
    }
}

fn vacuous_commit_scenario() -> ColonyFormingScenario {
    ColonyFormingScenario {
        slots: 2,
        homes: vec![
            Home { energy_capacity: 5300, income: 300, start_energy: 5300 },
            Home { energy_capacity: 5300, income: 300, start_energy: 5300 },
        ],
        economy: economy(),
        combat_priority: 85.0f32.to_bits(),
        per_member_cap: 3000,
        budget_ticks: 4000,
        member_ttl: 1500,
        renew: false,
    }
}

#[test]
fn vacuous_commit_lapses_pre_fix() {
    let target = ChurnTarget {
        travel_ticks: 30,
        uncontested: true,
        commit_intel_empty: true,
        arrival_has_towers: true,
        abandon_fixes_enabled: false,
        ..Default::default()
    };
    match run_lifecycle_churn(&vacuous_commit_scenario(), &offense_roster(), target) {
        ChurnOutcome::LapsedOnVacuousCommit { generations } => {
            assert!(generations > 1, "the oscillation must climb generations, got {generations}");
            assert_eq!(generations, 3);
        }
        other => panic!("pre-fix must LapsedOnVacuousCommit, got {other:?}"),
    }
}

#[test]
fn vacuous_commit_abandons_on_contact_post_fix() {
    let target = ChurnTarget {
        travel_ticks: 30,
        uncontested: true,
        commit_intel_empty: true,
        arrival_has_towers: true,
        abandon_fixes_enabled: true,
        ..Default::default()
    };
    match run_lifecycle_churn(&vacuous_commit_scenario(), &offense_roster(), target) {
        ChurnOutcome::AbandonedOnContact { generations } => {
            assert!(generations <= 1, "abandon-on-contact must NOT oscillate, got {generations}");
        }
        other => panic!("post-fix must AbandonedOnContact, got {other:?}"),
    }
}

#[test]
fn legitimate_clear_room_still_deploys_with_fixes_on() {
    let target = ChurnTarget {
        travel_ticks: 30,
        uncontested: true,
        commit_intel_empty: false,
        arrival_has_towers: false,
        abandon_fixes_enabled: true,
        ..Default::default()
    };
    let out = run_lifecycle_churn(&vacuous_commit_scenario(), &offense_roster(), target);
    assert!(
        matches!(out, ChurnOutcome::DeployedAndEngaged { .. }),
        "a genuinely-clear room must still deploy + engage (no false-abandon), got {out:?}"
    );
}

#[test]
fn winnable_retreat_does_not_abandon_a_winning_room() {
    let target = ChurnTarget {
        travel_ticks: 30,
        uncontested: true,
        winnable_retreat_in_room: true,
        arrival_has_towers: false,
        abandon_fixes_enabled: true,
        ..Default::default()
    };
    let out = run_lifecycle_churn(&vacuous_commit_scenario(), &offense_roster(), target);
    assert!(matches!(out, ChurnOutcome::DeployedAndEngaged { .. }), "must HOLD + win, got {out:?}");
    assert!(!matches!(out, ChurnOutcome::AbandonedOnContact { .. }));
}

#[test]
fn vacuous_commit_is_deterministic() {
    let target = ChurnTarget {
        travel_ticks: 30,
        uncontested: true,
        commit_intel_empty: true,
        arrival_has_towers: true,
        abandon_fixes_enabled: true,
        ..Default::default()
    };
    let s = vacuous_commit_scenario();
    assert_eq!(
        run_lifecycle_churn(&s, &offense_roster(), target),
        run_lifecycle_churn(&s, &offense_roster(), target)
    );
}

#[test]
fn lifecycle_churn_is_deterministic() {
    let target = ChurnTarget {
        travel_ticks: 30,
        uncontested: false,
        empty_dtos_on_arrival_ticks: 0,
        ..Default::default()
    };
    let s = contended();
    let slow = Roster { cost: 2300, parts: 20, priority: 85.0f32.to_bits() };
    assert_eq!(run_lifecycle_churn(&s, &slow, target), run_lifecycle_churn(&s, &slow, target));
}

fn easy_single_slot() -> ColonyFormingScenario {
    ColonyFormingScenario {
        slots: 1,
        homes: vec![Home { energy_capacity: 5300, income: 300, start_energy: 3000 }],
        economy: economy(),
        combat_priority: 87.5f32.to_bits(),
        per_member_cap: 3000,
        budget_ticks: 2000,
        member_ttl: 1500,
        renew: false,
    }
}

fn easy_roster() -> Roster {
    Roster { cost: 1200, parts: 8, priority: 87.5f32.to_bits() }
}

#[test]
fn engaged_en_route_latch_freezes_then_fixed_keeps_lease() {
    let buggy = run_lifecycle_churn(
        &easy_single_slot(),
        &easy_roster(),
        ChurnTarget {
            travel_ticks: 600,
            uncontested: true,
            target_visible_with_hostile_en_route: true,
            latch_engaged_in_room_only: false,
            ..Default::default()
        },
    );
    assert!(
        matches!(buggy, ChurnOutcome::LatchedEnRoute { .. }),
        "pre-fix: latching engaged_once en route kills the travel lease → freeze, got {buggy:?}"
    );
    let fixed = run_lifecycle_churn(
        &easy_single_slot(),
        &easy_roster(),
        ChurnTarget {
            travel_ticks: 600,
            uncontested: true,
            target_visible_with_hostile_en_route: true,
            latch_engaged_in_room_only: true,
            ..Default::default()
        },
    );
    assert!(
        matches!(fixed, ChurnOutcome::DeployedAndEngaged { .. }),
        "fixed: gating the latch on in-room presence keeps the travel lease, got {fixed:?}"
    );
}

#[test]
fn defender_garrison_churns_then_fixed_holds_station() {
    let buggy = run_lifecycle_churn(
        &easy_single_slot(),
        &easy_roster(),
        ChurnTarget {
            travel_ticks: 20,
            uncontested: true,
            is_defend: true,
            garrison_holds: false,
            ..Default::default()
        },
    );
    match buggy {
        ChurnOutcome::Garrisoned { generations } => {
            panic!("pre-fix must CHURN, not garrison ({generations} gens)")
        }
        other => assert!(
            matches!(other, ChurnOutcome::LapsedOnArrival { generations } if generations >= 1),
            "pre-fix: the focus-less in-room defender GaveUp + re-fields → churn, got {other:?}"
        ),
    }
    let fixed = run_lifecycle_churn(
        &easy_single_slot(),
        &easy_roster(),
        ChurnTarget {
            travel_ticks: 20,
            uncontested: true,
            is_defend: true,
            garrison_holds: true,
            ..Default::default()
        },
    );
    assert!(
        matches!(fixed, ChurnOutcome::Garrisoned { generations: 0 }),
        "fixed: the Defend garrison HOLDS its clear owned room, got {fixed:?}"
    );
}

// The spatial lifecycle.

fn two_home_offense() -> ColonyFormingScenario {
    ColonyFormingScenario {
        slots: 2,
        homes: vec![
            Home { energy_capacity: 5300, income: 300, start_energy: 3000 },
            Home { energy_capacity: 5300, income: 300, start_energy: 3000 },
        ],
        economy: economy(),
        combat_priority: 87.5f32.to_bits(),
        per_member_cap: 3000,
        budget_ticks: 2000,
        member_ttl: 1500,
        renew: false,
    }
}

fn scatter_travel(uncontested: bool, use_shared_rally: bool) -> SpatialTravel {
    SpatialTravel {
        homes: vec![
            WPos { wx: -3 * 50 + 25, wy: -10 * 50 + 25 },
            WPos { wx: -4 * 50 + 25, wy: -5 * 50 + 25 },
        ],
        rally: WPos { wx: -4 * 50 + 5, wy: -4 * 50 + 25 },
        target: WPos { wx: -5 * 50 + 25, wy: -4 * 50 + 25 },
        uncontested,
        use_shared_rally,
        enemy_held_rooms: vec![],
        latch_assault: true,
    }
}

#[test]
fn scattered_squad_stalls_then_converges_with_shared_rally() {
    let buggy = run_lifecycle_churn_spatial(
        &two_home_offense(),
        &easy_roster(),
        scatter_travel(false, false),
    );
    assert!(
        matches!(buggy, ChurnOutcome::LapsedInTravel { .. }),
        "the frozen-formation-anchor model must stall in travel, got {buggy:?}"
    );
    let fixed = run_lifecycle_churn_spatial(
        &two_home_offense(),
        &easy_roster(),
        scatter_travel(false, true),
    );
    assert!(
        matches!(fixed, ChurnOutcome::DeployedAndEngaged { .. }),
        "the shared-rally design must converge + advance + engage, got {fixed:?}"
    );
}

#[test]
fn uncontested_scatter_trickles_in_and_engages() {
    let out = run_lifecycle_churn_spatial(
        &two_home_offense(),
        &easy_roster(),
        scatter_travel(true, true),
    );
    assert!(
        matches!(out, ChurnOutcome::DeployedAndEngaged { .. }),
        "an uncontested target trickles the gathered members in + engages, got {out:?}"
    );
}

#[test]
fn spatial_lifecycle_is_deterministic() {
    let s = two_home_offense();
    assert_eq!(
        run_lifecycle_churn_spatial(&s, &easy_roster(), scatter_travel(false, true)),
        run_lifecycle_churn_spatial(&s, &easy_roster(), scatter_travel(false, true))
    );
}

fn contested_scatter(latch_assault: bool) -> SpatialTravel {
    SpatialTravel {
        homes: vec![
            WPos { wx: -4 * 50 + 20, wy: -5 * 50 + 25 },
            WPos { wx: -4 * 50 + 30, wy: -5 * 50 + 25 },
        ],
        rally: WPos { wx: -4 * 50 + 25, wy: -5 * 50 + 25 },
        target: WPos { wx: -6 * 50 + 25, wy: -5 * 50 + 25 },
        uncontested: false,
        use_shared_rally: true,
        enemy_held_rooms: vec![(-5, -5)],
        latch_assault,
    }
}

#[test]
fn contested_scatter_oscillates_then_latch_commits_the_assault() {
    let buggy =
        run_lifecycle_churn_spatial(&two_home_offense(), &easy_roster(), contested_scatter(false));
    assert!(
        matches!(buggy, ChurnOutcome::OscillatedNeverGathered { .. }),
        "non-latched: the contested defender oscillates + never commits, got {buggy:?}"
    );
    let fixed =
        run_lifecycle_churn_spatial(&two_home_offense(), &easy_roster(), contested_scatter(true));
    assert!(
        matches!(fixed, ChurnOutcome::DeployedAndEngaged { .. }),
        "latched: commit + reach the target despite attrition, got {fixed:?}"
    );
}

// The far-home lifecycle.

fn three_slot_offense(budget: u32) -> ColonyFormingScenario {
    ColonyFormingScenario {
        slots: 3,
        homes: (0..3)
            .map(|_| Home { energy_capacity: 5300, income: 400, start_energy: 3000 })
            .collect(),
        economy: economy(),
        combat_priority: 87.5f32.to_bits(),
        per_member_cap: 3000,
        budget_ticks: budget,
        member_ttl: 1500,
        renew: false,
    }
}

fn wpos(rx: i32, ry: i32, x: i32, y: i32) -> WPos {
    WPos { wx: rx * 50 + x, wy: ry * 50 + y }
}

fn far_home_s1(n_slots: usize) -> ExtendedTravel {
    let mut homes = vec![wpos(-7, -6, 25, 25)];
    for _ in 1..n_slots {
        homes.push(wpos(-18, -6, 25, 25));
    }
    ExtendedTravel {
        homes,
        target: wpos(-6, -6, 25, 25),
        uncontested: false,
        blocked_rooms: vec![],
        escalate_on_block: false,
        majority_progress: false,
        tight_stall_window: false,
        rally_spawn: false,
        lifetime_gate: false,
        renew_in_transit: false,
    }
}

fn far_home_s1_blocked(n_slots: usize) -> ExtendedTravel {
    let mut t = far_home_s1(n_slots);
    for i in 2..n_slots {
        t.homes[i] = wpos(-8, -6, 25, 25);
    }
    t.blocked_rooms = vec![(-12, -6)];
    t
}

fn s3_short_life_offense() -> ColonyFormingScenario {
    let mut s = three_slot_offense(3000);
    s.member_ttl = 700;
    s
}

fn far_home_s3(n_slots: usize) -> ExtendedTravel {
    ExtendedTravel {
        homes: (0..n_slots).map(|_| wpos(-19, -6, 25, 25)).collect(),
        target: wpos(-6, -6, 25, 25),
        uncontested: false,
        blocked_rooms: vec![],
        escalate_on_block: false,
        majority_progress: true,
        tight_stall_window: false,
        rally_spawn: false,
        lifetime_gate: false,
        renew_in_transit: false,
    }
}

#[test]
fn far_home_s3_short_life_churns_then_renew_deploys() {
    let s = s3_short_life_offense();
    let red = run_lifecycle_churn_extended(&s, &easy_roster(), far_home_s3(3));
    assert!(
        matches!(
            red,
            ChurnOutcome::LapsedInTravel { .. }
                | ChurnOutcome::OscillatedNeverGathered { .. }
                | ChurnOutcome::ChurnedNeverDeployed { .. }
        ),
        "short-lived far members committed without a lifetime gate must NOT engage, got {red:?}"
    );
    let green = run_lifecycle_churn_extended(
        &s,
        &easy_roster(),
        ExtendedTravel { lifetime_gate: true, renew_in_transit: true, ..far_home_s3(3) },
    );
    assert!(
        matches!(green, ChurnOutcome::DeployedAndEngaged { .. }),
        "lifetime gate + renewal must deploy the roster fit → engage, got {green:?}"
    );
}

#[test]
fn far_home_s3_gate_without_renew_still_fails() {
    let s = s3_short_life_offense();
    let out = run_lifecycle_churn_extended(
        &s,
        &easy_roster(),
        ExtendedTravel { lifetime_gate: true, ..far_home_s3(3) },
    );
    assert!(
        !matches!(out, ChurnOutcome::DeployedAndEngaged { .. }),
        "holding alone can't deploy a too-short roster, got {out:?}"
    );
}

#[test]
fn far_home_s3_renewable_rally_also_deploys() {
    let s = s3_short_life_offense();
    let green = run_lifecycle_churn_extended(
        &s,
        &easy_roster(),
        ExtendedTravel {
            lifetime_gate: true,
            renew_in_transit: true,
            rally_spawn: true,
            ..far_home_s3(3)
        },
    );
    assert!(
        matches!(green, ChurnOutcome::DeployedAndEngaged { .. }),
        "a renewable rally must deploy + engage, got {green:?}"
    );
}

#[test]
fn far_home_s1_min_progress_lapses_then_majority_deploys() {
    let s = three_slot_offense(2000);
    let red = run_lifecycle_churn_extended(&s, &easy_roster(), far_home_s1(3));
    assert!(
        matches!(
            red,
            ChurnOutcome::LapsedInTravel { .. } | ChurnOutcome::OscillatedNeverGathered { .. }
        ),
        "the min-distance progress signal must lapse the far-home squad in travel, got {red:?}"
    );
    let green = run_lifecycle_churn_extended(
        &s,
        &easy_roster(),
        ExtendedTravel { majority_progress: true, ..far_home_s1(3) },
    );
    assert!(
        matches!(green, ChurnOutcome::DeployedAndEngaged { .. }),
        "majority progress must keep the lease alive → deploy + engage, got {green:?}"
    );
}

#[test]
fn far_home_s1_blocked_silent_stall_then_escalation_deploys() {
    let s = three_slot_offense(2000);
    let red = run_lifecycle_churn_extended(&s, &easy_roster(), far_home_s1_blocked(3));
    assert!(
        matches!(
            red,
            ChurnOutcome::LapsedInTravel { .. } | ChurnOutcome::OscillatedNeverGathered { .. }
        ),
        "a blocked member with no feedback must SILENTLY stall → budget lapse, got {red:?}"
    );
    let green = run_lifecycle_churn_extended(
        &s,
        &easy_roster(),
        ExtendedTravel {
            escalate_on_block: true,
            tight_stall_window: true,
            majority_progress: true,
            ..far_home_s1_blocked(3)
        },
    );
    assert!(
        matches!(green, ChurnOutcome::DeployedAndEngaged { .. }),
        "the block is detected fast + the reachable subset masses → deploy + engage, got {green:?}"
    );
}

#[test]
fn far_home_s1_blocked_d5_alone_still_lapses() {
    let s = three_slot_offense(2000);
    let out = run_lifecycle_churn_extended(
        &s,
        &easy_roster(),
        ExtendedTravel { majority_progress: true, ..far_home_s1_blocked(3) },
    );
    assert!(
        matches!(
            out,
            ChurnOutcome::LapsedInTravel { .. } | ChurnOutcome::OscillatedNeverGathered { .. }
        ),
        "majority progress alone can't unblock a member, got {out:?}"
    );
}

#[test]
fn extended_lifecycle_is_deterministic() {
    let s = three_slot_offense(2000);
    assert_eq!(
        run_lifecycle_churn_extended(&s, &easy_roster(), far_home_s1_blocked(3)),
        run_lifecycle_churn_extended(&s, &easy_roster(), far_home_s1_blocked(3))
    );
    let s3 = s3_short_life_offense();
    let t3 = || ExtendedTravel {
        lifetime_gate: true,
        renew_in_transit: true,
        rally_spawn: true,
        ..far_home_s3(3)
    };
    assert_eq!(
        run_lifecycle_churn_extended(&s3, &easy_roster(), t3()),
        run_lifecycle_churn_extended(&s3, &easy_roster(), t3())
    );
}

// From forming to the engagement.

fn run_lifecycle(s: &ColonyFormingScenario, roster: &Roster) -> LifecycleOutcome {
    match after_forming(run_forming(s, roster)) {
        AfterForming::Ended(o) => o,
        // The formed roster razes an undefended core.
        AfterForming::Engage { form_ticks } => after_engagement(
            form_ticks,
            Some(Engagement { stop: StopReason::ObjectivesComplete, ticks: 120 }),
        ),
    }
}

#[test]
fn above_economy_roster_forms_and_kills_an_undefended_core() {
    match run_lifecycle(&scenario(87.5), &roster(87.5)) {
        LifecycleOutcome::Killed { engage_ticks, .. } => assert_eq!(engage_ticks, 120),
        other => panic!("expected the formed roster to kill the undefended core, got {other:?}"),
    }
}

#[test]
fn medium_priority_never_forms_so_never_engages() {
    match run_lifecycle(&scenario(50.0), &roster(50.0)) {
        LifecycleOutcome::NeverFormed { .. } => {}
        other => panic!("MEDIUM should never form, got {other:?}"),
    }
}

#[test]
fn lifecycle_is_deterministic() {
    assert_eq!(
        run_lifecycle(&scenario(87.5), &roster(87.5)),
        run_lifecycle(&scenario(87.5), &roster(87.5))
    );
}

#[test]
fn every_end_of_an_engagement_has_its_outcome() {
    let at = |stop| after_engagement(7, Some(Engagement { stop, ticks: 9 }));
    assert_eq!(
        at(StopReason::ObjectivesComplete),
        LifecycleOutcome::Killed { form_ticks: 7, engage_ticks: 9 }
    );
    assert_eq!(
        at(StopReason::SideWiped(0)),
        LifecycleOutcome::RosterWiped { form_ticks: 7, engage_ticks: 9 }
    );
    assert_eq!(
        at(StopReason::Timeout),
        LifecycleOutcome::Stalled { form_ticks: 7, engage_ticks: 9 }
    );
    assert_eq!(after_engagement(7, None), LifecycleOutcome::CouldNotField { form_ticks: 7 });
}

#[test]
fn rosters_are_sized_by_home_and_plan() {
    let homes = vec![
        Home { energy_capacity: 800, income: 1, start_energy: 0 },
        Home { energy_capacity: 5300, income: 1, start_energy: 0 },
    ];
    assert_eq!(build_energy(&homes, 3000), 3000);
    assert_eq!(build_energy(&homes, 9000), 5300);
    let plan = |winnable, mode| PlanSummary { winnable, mode, has_composition: winnable };
    assert_eq!(roster_choice(plan(true, AssaultMode::Breach)), Fielded::Sized);
    assert_eq!(roster_choice(plan(false, AssaultMode::Breach)), Fielded::Ceiling);
    assert!(drains(plan(true, AssaultMode::Drain)));
    assert_eq!(roster_choice(plan(true, AssaultMode::Drain)), Fielded::Sized);
    assert_eq!(roster_choice(plan(true, AssaultMode::Other)), Fielded::Ceiling);
    assert!(!drains(plan(true, AssaultMode::Other)));
    assert!(!drains(plan(true, AssaultMode::Breach)));
}

// The defended lifecycle.

fn plan(winnable: bool, mode: AssaultMode, has_composition: bool) -> PlanSummary {
    PlanSummary { winnable, mode, has_composition }
}

/// Plans a force of `sized` slots under a ceiling of six, forms it and fights.
fn run_defended(
    s: &ColonyFormingScenario,
    p: PlanSummary,
    sized: usize,
    fight: Option<Engagement>,
) -> (LifecycleOutcome, Vec<(Fielded, bool)>) {
    let r = roster(f32::from_bits(s.combat_priority));
    let mut fights = Vec::new();
    let (mut run, mut ask) = DefendedRun::start(s.clone());
    loop {
        (run, ask) = match ask {
            DefendedRequest::Plan { member_energy } => {
                assert_eq!(member_energy, build_energy(&s.homes, s.per_member_cap));
                run.planned(p, sized, 6)
            }
            DefendedRequest::Form { fielded, ask } => {
                assert_eq!(fielded, roster_choice(p));
                match ask {
                    FormingRequest::Ready { present, slots } => {
                        assert_eq!(slots, if fielded == Fielded::Sized { sized } else { 6 });
                        run.ready_known(present >= slots)
                    }
                    FormingRequest::Field { filled } => run.field_given(r.spawns(&filled)),
                    FormingRequest::RunLane(offer) => run.lane_done(&run_lane(&offer)),
                    FormingRequest::Finished(_) => panic!("forming ends in another request"),
                }
            }
            DefendedRequest::Engage { fielded, drains } => {
                fights.push((fielded, drains));
                run.engaged(fight)
            }
            DefendedRequest::Finished(o) => return (o, fights),
            DefendedRequest::Unasked => panic!("each answer is to the last question"),
        };
    }
}

const RAZED: Option<Engagement> =
    Some(Engagement { stop: StopReason::ObjectivesComplete, ticks: 240 });

#[test]
fn a_planned_force_forms_and_razes_the_core() {
    let p = plan(true, AssaultMode::Breach, true);
    let (o, fights) = run_defended(&scenario(87.5), p, 4, RAZED);
    match o {
        LifecycleOutcome::Killed { engage_ticks, .. } => assert_eq!(engage_ticks, 240),
        other => panic!("the sized force forms and kills, got {other:?}"),
    }
    assert_eq!(fights, vec![(Fielded::Sized, false)]);
}

#[test]
fn defended_lifecycle_is_deterministic() {
    let run = || run_defended(&scenario(87.5), plan(true, AssaultMode::Drain, true), 3, RAZED);
    assert_eq!(run(), run());
    assert_eq!(run().1, vec![(Fielded::Sized, true)]);
}

#[test]
fn a_defended_lifecycle_overrides_its_own_composition() {
    for p in [
        plan(true, AssaultMode::Breach, true),
        plan(true, AssaultMode::Drain, false),
        plan(false, AssaultMode::Drain, true),
    ] {
        let own = |slots| ColonyFormingScenario { slots, ..scenario(87.5) };
        let one = run_defended(&own(1), p, 4, RAZED);
        assert_eq!(one, run_defended(&own(40), p, 4, RAZED));
        assert_eq!(one.1[0].0, roster_choice(p));
    }
}

#[test]
fn a_defended_lifecycle_may_end_short_of_the_core() {
    let p = plan(true, AssaultMode::Breach, true);
    let (o, fights) = run_defended(&scenario(50.0), p, 4, RAZED);
    assert!(matches!(o, LifecycleOutcome::NeverFormed { of: 4, .. }));
    assert!(fights.is_empty());
    let (o, _) = run_defended(&scenario(87.5), p, 4, None);
    assert!(matches!(o, LifecycleOutcome::CouldNotField { .. }));
    let (run, _) = DefendedRun::start(scenario(87.5));
    let (run, ask) = run.engaged(RAZED);
    assert!(matches!(ask, DefendedRequest::Unasked));
    assert!(matches!(run, DefendedRun::Planning(_)), "an unasked answer changes nothing");
}
