use combat_eval::auction::{
    auction_greedy, feasible_rows, run_auction_flow, AssignmentSolution, AuctionFlowScenario,
    AuctionObjective, AuctionOutcome, AuctionSquad, ColumnKind, EvMatrix,
};
use combat_eval::declaim_flow::{
    DeclaimFlowScenario, DeclaimOutcome, DeclaimRequest, DeclaimRun, DECLAIM_PRIORITY,
};
use combat_eval::lease::{
    ChurnOutcome, ReconcileAction, ReconcileSnapshot, RetireReason, COMMITMENT_BUDGET,
};
use combat_eval::march::{is_defend_holding, room_step, v1_dist};
use combat_eval::merge::{
    MergeFlowScenario, MergeOutcome, MergeSlot, MergeSquad,
};
use combat_eval::objective_queue::V1Queue;
use combat_eval::offense_flow::{
    objective_priority, DoctrineObjective, OffenseCandidate, OffenseFlowScenario, OffenseRequest,
    OffenseRun,
};
use combat_eval::v1_flow::{Emission, Sighting, V1FlowScenario, V1Request, V1Run};

// Stand-ins for the outside kernels.

fn retire(reason: RetireReason) -> ReconcileAction {
    ReconcileAction::Retire { reason, withdraw: true, mark_unwinnable: false }
}

/// A squad whose objective is done or gone is rebound where it can be, else retired.
fn reconcile(s: &ReconcileSnapshot) -> ReconcileAction {
    let resolved = s.engaged_once && s.in_target_room && !s.has_focus;
    if (s.objective_gone || resolved) && s.reassign_available {
        return ReconcileAction::Reassign { withdraw_old: !s.objective_gone };
    }
    if s.objective_gone {
        return retire(RetireReason::ObjectiveGone);
    }
    if s.has_focus || s.declaiming {
        return ReconcileAction::KeepRefreshLease;
    }
    if s.forming && s.forming_budget_remaining && (s.forming_progress || s.forming_in_flight) {
        return ReconcileAction::KeepRefreshLease;
    }
    if s.traveling && s.travel_progress && s.travel_budget_remaining {
        return ReconcileAction::KeepRefreshLease;
    }
    if resolved {
        return retire(RetireReason::Resolved);
    }
    if s.deadline_lapsed {
        return retire(RetireReason::GaveUp);
    }
    ReconcileAction::Keep
}

/// Owned rooms are secured first, and neighbours within two rooms.
fn emit_defense(s: &Sighting) -> Vec<Emission> {
    match s.room {
        Some(room) if s.owned => vec![Emission { room, priority: 100 }],
        Some(room) if s.nearest_owned.is_some_and(|d| d <= 2) => {
            vec![Emission { room, priority: 50 }]
        }
        _ => vec![],
    }
}

fn run_v1_flow(s: V1FlowScenario) -> ChurnOutcome {
    let (mut run, mut ask) = V1Run::start(s);
    loop {
        ask = match ask {
            V1Request::Scan(sighting) => run.scanned(&emit_defense(&sighting)),
            V1Request::Reconcile(snap) => run.reconciled(reconcile(&snap)),
            V1Request::Finished(o) => return o,
        };
    }
}

fn v1_threat_walks_to_neighbour(reassign: bool) -> V1FlowScenario {
    V1FlowScenario {
        owned: vec![((0, 0), 1.0f32.to_bits())],
        home: (0, 0),
        threat_path: vec![(0, 0), (0, 0), (1, 0), (1, 0), (1, 0), (1, 0), (1, 0), (1, 0)],
        scan_period: 2,
        objective_ttl: 6,
        reassign_enabled: reassign,
        form_ticks: 2,
        budget_ticks: 400,
    }
}

#[test]
fn defender_reassigns_to_follow_a_moving_threat_end_to_end() {
    let out = run_v1_flow(v1_threat_walks_to_neighbour(true));
    match out {
        ChurnOutcome::Reassigned { from_gen, reassignments, .. } => {
            assert_eq!(from_gen, 0, "the SAME squad followed the threat — NO Generation churn");
            assert!(reassignments >= 1, "the squad rebound in place at least once");
        }
        other => panic!("the defender must reassign + follow the moving threat, got {other:?}"),
    }
    assert_eq!(run_v1_flow(v1_threat_walks_to_neighbour(true)), out);
}

#[test]
fn reassign_reuses_same_generation_vs_control_churns() {
    let reused = run_v1_flow(v1_threat_walks_to_neighbour(true));
    assert!(
        matches!(reused, ChurnOutcome::Reassigned { from_gen: 0, .. }),
        "reassign reuses the same generation, got {reused:?}"
    );
    let churned = run_v1_flow(v1_threat_walks_to_neighbour(false));
    match churned {
        ChurnOutcome::Reassigned { .. } => panic!("the control must NOT reassign — it churns"),
        ChurnOutcome::ChurnedNeverDeployed { generations, .. }
        | ChurnOutcome::LapsedInTravel { generations } => {
            assert!(generations >= 1, "the control re-fields a fresh generation, got {generations}");
        }
        other => panic!("the control must churn (climbing generations), got {other:?}"),
    }
}

#[test]
fn no_sibling_falls_back_to_retire_not_reassign() {
    let scenario = V1FlowScenario {
        owned: vec![((0, 0), 1.0f32.to_bits())],
        home: (0, 0),
        threat_path: vec![(0, 0), (0, 0), (9, 9), (9, 9), (9, 9)],
        scan_period: 2,
        objective_ttl: 6,
        reassign_enabled: true,
        form_ticks: 2,
        budget_ticks: 200,
    };
    let out = run_v1_flow(scenario);
    assert!(
        !matches!(out, ChurnOutcome::Reassigned { .. }),
        "with no sibling available, the squad must NOT reassign, got {out:?}"
    );
}

#[test]
fn full_defense_production_chain_drives_secure_via_observe_neighbours() {
    let out = run_v1_flow(v1_threat_walks_to_neighbour(true));
    match out {
        ChurnOutcome::Reassigned { from_gen, reassignments, .. } => {
            assert_eq!(from_gen, 0);
            assert!(reassignments >= 1);
        }
        other => panic!("the full defense production chain must drive Secure, got {other:?}"),
    }
}

#[test]
fn rooms_are_crossed_one_at_a_time() {
    assert_eq!(v1_dist((0, 0), (3, -2)), 3);
    assert_eq!(room_step((0, 0), (3, -2)), (1, -1));
    assert_eq!(room_step((3, -2), (3, -2)), (3, -2));
    assert!(is_defend_holding(true, false));
    assert!(!is_defend_holding(true, true));
    assert!(!is_defend_holding(false, false));
}

// The auction.

const NO: i64 = i64::MIN;

/// The value of an objective to a squad: what it is worth, in whole numbers.
fn build_ev_matrix(s: &AuctionFlowScenario) -> EvMatrix {
    let rows = s.squads.len();
    let mut columns: Vec<ColumnKind> =
        s.objectives.iter().map(|o| ColumnKind::Objective { id: o.id }).collect();
    for _ in 0..rows {
        columns.push(ColumnKind::StayPut);
    }
    columns.push(ColumnKind::Recycle);
    let mut cells = Vec::new();
    for r in 0..rows {
        let mut row = Vec::new();
        for o in &s.objectives {
            let feasible = feasible_rows(o, rows)[r];
            row.push(if feasible { f32::from_bits(o.value) as i64 } else { NO });
        }
        for k in 0..rows {
            let current = s.squads[r].current_objective;
            let staying = s.objectives.iter().find(|o| Some(o.id) == current);
            row.push(match staying {
                Some(o) if k == r => f32::from_bits(o.value) as i64 + 1,
                _ => NO,
            });
        }
        row.push(0);
        cells.push(row);
    }
    EvMatrix { columns, cells, infeasible: NO }
}

/// The best matching, by trying them all; an objective is taken once.
fn solve(m: &EvMatrix) -> AssignmentSolution {
    fn go(m: &EvMatrix, r: usize, used: &mut Vec<usize>) -> (i64, Vec<Option<usize>>) {
        if r == m.cells.len() {
            return (0, vec![]);
        }
        let mut best: Option<(i64, Vec<Option<usize>>)> = None;
        for c in 0..m.columns.len() {
            if m.cells[r][c] == m.infeasible || used.contains(&c) {
                continue;
            }
            if matches!(m.columns[c], ColumnKind::Objective { .. }) {
                used.push(c);
            }
            let (rest, mut cols) = go(m, r + 1, used);
            used.retain(|x| *x != c);
            cols.insert(0, Some(c));
            let total = m.cells[r][c] + rest;
            if best.as_ref().is_none_or(|b| total > b.0) {
                best = Some((total, cols));
            }
        }
        best.unwrap()
    }
    let (total_ev, row_to_col) = go(m, 0, &mut vec![]);
    AssignmentSolution { row_to_col, total_ev }
}

fn run_auction(s: &AuctionFlowScenario) -> AuctionOutcome {
    let m = build_ev_matrix(s);
    let sol = solve(&m);
    run_auction_flow(s, &m, &sol)
}

fn auction_greedy_suboptimal(global: bool) -> AuctionFlowScenario {
    AuctionFlowScenario {
        squads: vec![
            AuctionSquad { structure_dps: 1000, heal: 50, current_objective: None },
            AuctionSquad { structure_dps: 120, heal: 50, current_objective: None },
        ],
        objectives: vec![
            AuctionObjective {
                id: 0,
                value: 50_001.0f32.to_bits(),
                feasible_per_row: vec![true, true],
            },
            AuctionObjective {
                id: 1,
                value: 50_000.0f32.to_bits(),
                feasible_per_row: vec![true, false],
            },
        ],
        global_solve: global,
    }
}

#[test]
fn auction_global_strictly_beats_greedy_in_the_flow() {
    let greedy = run_auction(&auction_greedy_suboptimal(false));
    let global = run_auction(&auction_greedy_suboptimal(true));
    assert!(global.total_ev > greedy.total_ev);
    assert_eq!(greedy.picks, vec![Some(0), None], "greedy strands B");
    assert_eq!(global.picks, vec![Some(1), Some(0)], "global routes A→L and B→H");
    assert_eq!(greedy.total_ev, 50_001);
    assert_eq!(global.total_ev, 100_001);
}

#[test]
fn auction_flow_is_deterministic() {
    for global in [false, true] {
        let a = run_auction(&auction_greedy_suboptimal(global));
        let b = run_auction(&auction_greedy_suboptimal(global));
        assert_eq!(format!("{a:?}"), format!("{b:?}"));
    }
}

#[test]
fn auction_flow_respects_the_ev_positive_gate() {
    let s = AuctionFlowScenario {
        squads: vec![AuctionSquad { structure_dps: 1000, heal: 50, current_objective: Some(0) }],
        objectives: vec![
            AuctionObjective {
                id: 0,
                value: 100_000.0f32.to_bits(),
                feasible_per_row: vec![true],
            },
            AuctionObjective { id: 1, value: 5.0f32.to_bits(), feasible_per_row: vec![true] },
        ],
        global_solve: true,
    };
    let out = run_auction(&s);
    assert_ne!(out.picks[0], Some(1), "must NOT take the sub-threshold objective");
    assert_eq!(out.picks[0], None, "staying put is no pick");
}

#[test]
fn greedy_skips_what_is_taken_or_infeasible() {
    let m = EvMatrix {
        columns: vec![ColumnKind::Objective { id: 7 }, ColumnKind::Objective { id: 9 }],
        cells: vec![vec![3, 3], vec![9, 4], vec![8, 2]],
        infeasible: NO,
    };
    let out = auction_greedy(&m);
    assert_eq!(out.picks, vec![Some(7), Some(9), None]);
    assert_eq!(out.total_ev, 7);
}

#[test]
fn unlisted_feasibility_means_everyone() {
    let o = AuctionObjective { id: 1, value: 0, feasible_per_row: vec![] };
    assert_eq!(feasible_rows(&o, 3), vec![true, true, true]);
}

// Merging.

const RANGED: u8 = 4;
const DISMANTLER: u8 = 1;

fn merge_reinforce_scenario(merge_enabled: bool) -> MergeFlowScenario {
    MergeFlowScenario {
        squads: vec![
            MergeSquad {
                structure_dps: 200,
                heal: 50,
                sheddable_dps: 0,
                sheddable_heal: 0,
                current_objective: 0,
                slots: vec![
                    MergeSlot { role: RANGED, filled: true },
                    MergeSlot { role: DISMANTLER, filled: false },
                ],
                merge_eligible: false,
            },
            MergeSquad {
                structure_dps: 800,
                heal: 0,
                sheddable_dps: 800,
                sheddable_heal: 0,
                current_objective: 1,
                slots: vec![MergeSlot { role: DISMANTLER, filled: true }],
                merge_eligible: true,
            },
        ],
        objective_values: vec![200_000.0f32.to_bits(), 50.0f32.to_bits()],
        objective_tower_range: vec![20, 0],
        objective_required_hits: vec![400_000, 0],
        merge_enabled,
    }
}

/// A donor may merge where its shed roles meet the receiver's open ones; a merge is
/// worth the receiver's objective.
fn run_merge(s: &MergeFlowScenario) -> MergeOutcome {
    let rows = s.rows();
    let n = rows.len();
    let mut columns: Vec<ColumnKind> =
        s.objective_ids().iter().map(|id| ColumnKind::Objective { id: *id }).collect();
    let stay_base = columns.len();
    for _ in 0..n {
        columns.push(ColumnKind::StayPut);
    }
    for r in 0..n {
        columns.push(ColumnKind::Merge { receiver_row: r });
    }
    let mut cells = Vec::new();
    let mut row_to_col = Vec::new();
    for (r, row) in rows.iter().enumerate() {
        let mut cell = vec![NO; columns.len()];
        let own = s.objective_cell(row.current_objective);
        cell[stay_base + r] = f32::from_bits(own.value) as i64;
        let mut pick = stay_base + r;
        for (to, other) in rows.iter().enumerate() {
            let fits = row.sheddable_roles & other.open_slot_roles != 0;
            if row.merge_eligible && to != r && fits {
                let c = stay_base + n + to;
                cell[c] =
                    f32::from_bits(s.objective_cell(other.current_objective).value) as i64;
                if cell[c] > cell[pick] {
                    pick = c;
                }
            }
        }
        cells.push(cell);
        row_to_col.push(Some(pick));
    }
    let m = EvMatrix { columns, cells, infeasible: NO };
    s.run_merge_flow(&m, &AssignmentSolution { row_to_col, total_ev: 0 }, stay_base)
}

#[test]
fn merge_flow_transfers_fills_the_pending_slot_and_retires_the_empty_donor() {
    let green = run_merge(&merge_reinforce_scenario(true));
    assert_eq!(green.merge, Some((1, 0, 1)), "the donor merges into the receiver's open slot");
    assert_eq!(green.slots[0], (2, 0), "the receiver's open slot is filled by transfer");
    assert!(green.retired[1], "the emptied donor retires cleanly");
    assert!(!green.retired[0], "the receiver is not retired");
    assert_eq!(green.slots[1], (0, 0), "the donor has no members left");

    let red = run_merge(&merge_reinforce_scenario(false));
    assert_eq!(red.merge, None, "with merge disabled the donor cannot transfer");
    assert_eq!(red.slots[0], (1, 1), "the receiver's pending slot stays OPEN");
    assert!(!red.retired[1], "the donor does not retire without the transfer");
}

#[test]
fn merge_flow_consolidates_two_forming_squads() {
    let half = |sheddable_dps, sheddable_heal, current_objective, merge_eligible| MergeSquad {
        structure_dps: 150,
        heal: 50,
        sheddable_dps,
        sheddable_heal,
        current_objective,
        slots: vec![
            MergeSlot { role: RANGED, filled: true },
            MergeSlot { role: RANGED, filled: false },
        ],
        merge_eligible,
    };
    let s = MergeFlowScenario {
        squads: vec![half(0, 0, 0, false), half(500, 30, 1, true)],
        objective_values: vec![150_000.0f32.to_bits(), 40_000.0f32.to_bits()],
        objective_tower_range: vec![20, 20],
        objective_required_hits: vec![300_000, 300_000],
        merge_enabled: true,
    };
    let out = run_merge(&s);
    assert_eq!(out.merge, Some((1, 0, 1)), "the donor consolidates its member into the receiver");
    assert_eq!(out.slots[0], (2, 0), "the receiver is now at 2/2");
    assert!(out.retired[1], "the donor emptied and retired");
}

#[test]
fn merge_flow_is_deterministic() {
    for enabled in [false, true] {
        let a = run_merge(&merge_reinforce_scenario(enabled));
        let b = run_merge(&merge_reinforce_scenario(enabled));
        assert_eq!(format!("{a:?}"), format!("{b:?}"));
    }
}

// The offense.

/// A stand-in for the winnability test: a pool of hits that a squad can chew in time.
fn winnable(hits: u64, safe_mode: bool, s: &OffenseFlowScenario) -> bool {
    !safe_mode && hits <= (s.member_energy as u64) * (s.onsite_window as u64)
}

fn offense(objective: DoctrineObjective, budget_ticks: u32) -> OffenseFlowScenario {
    OffenseFlowScenario {
        home: (0, 0),
        candidates: vec![OffenseCandidate {
            room: (2, 0),
            objective,
            honor_verdict: true,
            target_value: 1_000_000.0f32.to_bits(),
        }],
        member_energy: 5600,
        onsite_window: 1000,
        scan_period: 2,
        objective_ttl: 100,
        form_ticks: 4,
        budget_ticks,
    }
}

fn run_offense_flow(s: OffenseFlowScenario, hits: u64, safe_mode: bool) -> ChurnOutcome {
    let fielded = vec![winnable(hits, safe_mode, &s); s.candidates.len()];
    let (mut run, mut ask) = OffenseRun::start(s);
    loop {
        ask = match ask {
            OffenseRequest::Scan => run.scanned(&fielded),
            OffenseRequest::Reconcile(snap) => run.reconciled(reconcile(&snap)),
            OffenseRequest::Finished(o) => return o,
        };
    }
}

#[test]
fn offense_flow_winnable_core_fields_and_engages() {
    let run = || {
        run_offense_flow(offense(DoctrineObjective::KillImmuneStructure, 400), 50_000, false)
    };
    let out = run();
    assert!(
        matches!(out, ChurnOutcome::DeployedAndEngaged { generations: 0, .. }),
        "a winnable undefended core must field + engage end-to-end, got {out:?}"
    );
    assert_eq!(run(), out);
}

#[test]
fn offense_flow_unwinnable_safe_mode_is_gated_out() {
    let run =
        || run_offense_flow(offense(DoctrineObjective::KillImmuneStructure, 200), 50_000, true);
    let out = run();
    assert!(
        matches!(out, ChurnOutcome::ChurnedNeverDeployed { generations: 0, .. }),
        "an unwinnable safe-moded room must field no squad, got {out:?}"
    );
    assert_eq!(run(), out);
}

#[test]
fn offense_flow_salvage_breach_blocker_fields_sizes_and_dismantles() {
    let run =
        || run_offense_flow(offense(DoctrineObjective::DismantleStructure, 400), 30_000, false);
    let out = run();
    assert!(
        matches!(out, ChurnOutcome::DeployedAndEngaged { generations: 0, .. }),
        "a feasible breach blocker must field + engage it end-to-end, got {out:?}"
    );
    assert_eq!(run(), out);
}

#[test]
fn offense_flow_salvage_breach_infeasible_seal_is_gated_out() {
    let run = || {
        let s = offense(DoctrineObjective::DismantleStructure, 200);
        run_offense_flow(s, u32::MAX as u64, false)
    };
    let out = run();
    assert!(
        matches!(out, ChurnOutcome::ChurnedNeverDeployed { generations: 0, .. }),
        "an infeasible breach seal must field no squad, got {out:?}"
    );
    assert_eq!(run(), out);
}

#[test]
fn doctrines_have_their_priorities() {
    assert_eq!(objective_priority(DoctrineObjective::KillImmuneStructure), 50);
    assert_eq!(objective_priority(DoctrineObjective::DismantleStructure), 50);
    assert_eq!(objective_priority(DoctrineObjective::ClearCreeps), 75);
    assert_eq!(objective_priority(DoctrineObjective::RaidCreeps), 25);
}

// The declaim.

fn declaim_scenario() -> DeclaimFlowScenario {
    DeclaimFlowScenario {
        home: (0, 0),
        controller_room: (1, 0),
        cadence: 1000,
        strikes_to_neutralize: 3,
        form_ticks: 4,
        objective_ttl: 100,
        budget_ticks: 4000,
    }
}

fn run_declaim_flow(s: DeclaimFlowScenario) -> DeclaimOutcome {
    let (mut run, mut ask) = DeclaimRun::start(s);
    loop {
        ask = match ask {
            DeclaimRequest::Reconcile(snap) => run.reconciled(reconcile(&snap)),
            DeclaimRequest::Finished(o) => return o,
        };
    }
}

#[test]
fn declaim_flow_persists_across_the_cadence_and_neutralizes() {
    let out = run_declaim_flow(declaim_scenario());
    match out {
        DeclaimOutcome::Neutralized { cadence_cycles, .. } => {
            assert_eq!(cadence_cycles, 3, "all three cadence-cycle strikes landed");
        }
        other => panic!("declaim must persist across the cadence + neutralize, got {other:?}"),
    }
    assert_eq!(run_declaim_flow(declaim_scenario()), out);
}

#[test]
fn declaim_flow_lease_actually_lapses_between_strikes() {
    let s = declaim_scenario();
    assert!(s.cadence > COMMITMENT_BUDGET, "the test must exercise the mid-cadence lapse");
    let out = run_declaim_flow(s);
    assert!(
        matches!(out, DeclaimOutcome::Neutralized { .. }),
        "the declaimer holds across a lease that DOES lapse between strikes, got {out:?}"
    );
}

#[test]
fn declaimer_that_gives_up_is_told_so() {
    let (mut run, mut ask) = DeclaimRun::start(declaim_scenario());
    let out = loop {
        ask = match ask {
            DeclaimRequest::Reconcile(snap) => {
                let lapsed = snap.deadline_lapsed && snap.declaiming;
                run.reconciled(if lapsed {
                    retire(RetireReason::GaveUp)
                } else {
                    reconcile(&ReconcileSnapshot { declaiming: false, ..snap })
                })
            }
            DeclaimRequest::Finished(o) => break o,
        };
    };
    assert!(!matches!(out, DeclaimOutcome::Neutralized { .. }), "got {out:?}");
    assert_eq!(DECLAIM_PRIORITY, 25);
}

// The queue.

#[test]
fn the_queue_upserts_claims_and_expires() {
    let mut q = V1Queue::default();
    let a = q.request((1, 0), 50, 0, 10);
    let b = q.request((2, 0), 75, 0, 10);
    assert_ne!(a, b);
    assert_eq!(q.request((1, 0), 90, 5, 10), a, "a room is requested once");
    assert_eq!(q.get(a).unwrap().priority, 90);
    assert_eq!(q.best_unclaimed_excluding(u32::MAX), Some(a));
    assert_eq!(q.best_unclaimed_excluding(a), Some(b));
    q.claim(a);
    assert_eq!(q.best_unclaimed_excluding(u32::MAX), Some(b));
    q.expire(100);
    assert!(q.get(a).is_some(), "a claimed objective does not expire");
    assert!(q.get(b).is_none());
    q.release(a);
    assert_eq!(q.best_unclaimed_excluding(u32::MAX), Some(a));
    assert_eq!(q.id_at((1, 0)), Some(a));
    q.withdraw(a);
    assert_eq!(q.id_at((1, 0)), None);
}

#[test]
fn a_global_solve_is_worth_at_least_the_greedy_one() {
    for n in 0..64u32 {
        let scenario = |global_solve| AuctionFlowScenario {
            squads: (0..3)
                .map(|_| AuctionSquad { structure_dps: 100, heal: 0, current_objective: None })
                .collect(),
            objectives: (0..3)
                .map(|k| AuctionObjective {
                    id: k,
                    value: (((n * 7 + k * 13) % 17 + 1) as f32).to_bits(),
                    feasible_per_row: (0..3).map(|r| (n >> (k + r)) & 1 == 0).collect(),
                })
                .collect(),
            global_solve,
        };
        let s = scenario(true);
        let (global, greedy) = (run_auction(&s), run_auction(&scenario(false)));
        assert!(global.total_ev >= greedy.total_ev, "{n}");
        for o in [global, greedy] {
            assert_eq!(o.picks.len(), 3);
            for (r, pick) in o.picks.iter().enumerate() {
                if let Some(id) = pick {
                    assert!(s.objectives[*id as usize].feasible_per_row[r], "{n}");
                    assert!(!o.picks[..r].contains(pick), "{n}");
                }
            }
        }
    }
}
