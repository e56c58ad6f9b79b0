//! Judging scenarios: the calibration tally of the sizing oracle, and the other
//! lenses that a scenario can be judged through.

use crate::evaluate::StopReason;
use crate::fielding::{AssaultMode, PlanSummary};
use crate::generate::RandomDefendedBase;
use crate::position::{tile_range, WPos};
use crate::scenario::{Objective, Scenario};
use crate::suite::{judged_in_turn, run_suite, SuiteReport};
use crate::text::{decimal, push_decimal};
use crate::world::{CombatWorld, PlayerId, SimCreep};
use vstd::prelude::*;
use vstd::string::*;

verus! {

/// A judgement of one scenario.
#[derive(Clone, Debug)]
pub struct Verdict {
    pub pass: bool,
    pub label: String,
    pub detail: String,
}

/// A judge of scenarios, which may keep a tally between them.
pub trait Validator: Sized {
    /// Its name.
    spec fn name(self) -> Seq<char>;

    /// Holds of a scenario, the judge after it, and the verdict.
    spec fn judged(self, scenario: Scenario, after: Self, v: Verdict) -> bool;

    fn label(&self) -> (r: String)
        ensures
            r@ == self.name(),
    ;

    fn validate(&mut self, scenario: &Scenario) -> (v: Verdict)
        ensures
            old(self).judged(*scenario, *final(self), v),
    ;
}

/// The running tally of the calibration.
#[derive(Clone, Copy, Debug, PartialEq, Eq, Structural)]
pub struct Calibration {
    pub scenarios: u32,
    pub fielded: u32,
    pub false_positives: u32,
    pub deferred: u32,
    pub false_negatives: u32,
    pub unfieldable: u32,
    pub drain_winnable: u32,
}

impl Default for Calibration {
    fn default() -> (r: Calibration)
        ensures
            r == fresh_tally(),
    {
        Calibration {
            scenarios: 0,
            fielded: 0,
            false_positives: 0,
            deferred: 0,
            false_negatives: 0,
            unfieldable: 0,
            drain_winnable: 0,
        }
    }
}

/// What was seen of one scenario: the plan, and whether the squad that was fielded
/// breached (the sized one under a winnable plan, else the ceiling); `None` where
/// it could not be placed.
#[derive(Clone, Copy, Debug, PartialEq, Eq, Structural)]
pub struct OracleObservation {
    pub plan: PlanSummary,
    pub breached: Option<bool>,
}

/// How an observation counts.
#[derive(Clone, Copy, Debug, PartialEq, Eq, Structural)]
pub enum CalibrationRow {
    DrainWinnable,
    Breached,
    FalsePositive,
    Unplaceable,
    Unaffordable,
    FalseNegative,
    CorrectDefer,
}

pub open spec fn fresh_tally() -> Calibration {
    Calibration {
        scenarios: 0,
        fielded: 0,
        false_positives: 0,
        deferred: 0,
        false_negatives: 0,
        unfieldable: 0,
        drain_winnable: 0,
    }
}

pub open spec fn row_of(o: OracleObservation) -> CalibrationRow {
    if o.plan.winnable {
        if o.plan.mode == AssaultMode::Drain {
            CalibrationRow::DrainWinnable
        } else if !o.plan.has_composition {
            CalibrationRow::Unaffordable
        } else {
            match o.breached {
                Some(true) => CalibrationRow::Breached,
                Some(false) => CalibrationRow::FalsePositive,
                None => CalibrationRow::Unplaceable,
            }
        }
    } else if o.breached == Some(true) {
        CalibrationRow::FalseNegative
    } else {
        CalibrationRow::CorrectDefer
    }
}

/// Only a false positive and a false negative fail.
pub open spec fn passes(row: CalibrationRow) -> bool {
    row != CalibrationRow::FalsePositive && row != CalibrationRow::FalseNegative
}

pub open spec fn row_detail(row: CalibrationRow) -> Seq<char> {
    match row {
        CalibrationRow::DrainWinnable => "winnable (drain) — diagnostic, not breach-graded"@,
        CalibrationRow::Breached => "winnable + fielded → breached"@,
        CalibrationRow::FalsePositive =>
            "FALSE POSITIVE: winnable + fielded but did NOT breach"@,
        CalibrationRow::Unplaceable =>
            "winnable but bed geometry can't place it (excluded)"@,
        CalibrationRow::Unaffordable =>
            "winnable but required force exceeds one squad at this energy (defer-by-affordability)"@,
        CalibrationRow::FalseNegative =>
            "FALSE NEGATIVE: deferred but the ceiling squad breached"@,
        CalibrationRow::CorrectDefer =>
            "deferred — the ceiling squad could not breach (correct)"@,
    }
}

impl Calibration {
    /// The counts add up.
    pub open spec fn wf(self) -> bool {
        &&& self.scenarios == self.fielded + self.deferred + self.unfieldable
            + self.drain_winnable
        &&& self.false_positives <= self.fielded
        &&& self.false_negatives <= self.deferred
    }

    /// The tally after one more row.
    pub open spec fn counted(self, row: CalibrationRow) -> Calibration {
        let c = Calibration { scenarios: (self.scenarios + 1) as u32, ..self };
        match row {
            CalibrationRow::DrainWinnable => Calibration {
                drain_winnable: (c.drain_winnable + 1) as u32,
                ..c
            },
            CalibrationRow::Breached => Calibration { fielded: (c.fielded + 1) as u32, ..c },
            CalibrationRow::FalsePositive => Calibration {
                fielded: (c.fielded + 1) as u32,
                false_positives: (c.false_positives + 1) as u32,
                ..c
            },
            CalibrationRow::Unplaceable | CalibrationRow::Unaffordable => Calibration {
                unfieldable: (c.unfieldable + 1) as u32,
                ..c
            },
            CalibrationRow::FalseNegative => Calibration {
                deferred: (c.deferred + 1) as u32,
                false_negatives: (c.false_negatives + 1) as u32,
                ..c
            },
            CalibrationRow::CorrectDefer => Calibration { deferred: (c.deferred + 1) as u32, ..c },
        }
    }

    /// At most one in a hundred fielded squads failed.
    pub open spec fn fp_held(self) -> bool {
        self.false_positives * 100 <= self.fielded
    }

    /// At most one in five defers was wrong.
    pub open spec fn fn_held(self) -> bool {
        self.false_negatives * 5 <= self.deferred
    }

    /// Whether the rate of false positives is at most 0.01.
    pub fn fp_gate(&self) -> (r: bool)
        ensures
            r == self.fp_held(),
    {
        self.false_positives as u64 * 100 <= self.fielded as u64
    }

    /// Whether the rate of false negatives is at most 0.2.
    pub fn fn_gate(&self) -> (r: bool)
        ensures
            r == self.fn_held(),
    {
        self.false_negatives as u64 * 5 <= self.deferred as u64
    }

    /// The dashboard, with the two rates as they are to be shown.
    pub open spec fn reported(self, fp_rate: Seq<char>, fn_rate: Seq<char>) -> Seq<char> {
        "oracle calibration — "@ + decimal(self.scenarios as nat) + " scenarios\n  fielded: "@
            + decimal(self.fielded as nat) + " | false positives: "@ + decimal(
            self.false_positives as nat,
        ) + " (fp_rate "@ + fp_rate + ", gate <= 0.010)\n  deferred: "@ + decimal(
            self.deferred as nat,
        ) + " | false negatives: "@ + decimal(self.false_negatives as nat) + " (fn_rate "@
            + fn_rate + ", gate <= 0.200)\n  unfieldable: "@ + decimal(self.unfieldable as nat)
            + " | drain-winnable (diag): "@ + decimal(self.drain_winnable as nat)
    }

    /// The dashboard, with the two rates as they are to be shown.
    pub fn report(&self, fp_rate: &str, fn_rate: &str) -> (s: String)
        ensures
            s@ == self.reported(fp_rate@, fn_rate@),
    {
        let mut s: String = String::from_str("oracle calibration — ");
        push_decimal(&mut s, self.scenarios as u64);
        s.append(" scenarios\n  fielded: ");
        push_decimal(&mut s, self.fielded as u64);
        s.append(" | false positives: ");
        push_decimal(&mut s, self.false_positives as u64);
        s.append(" (fp_rate ");
        s.append(fp_rate);
        s.append(", gate <= 0.010)\n  deferred: ");
        push_decimal(&mut s, self.deferred as u64);
        s.append(" | false negatives: ");
        push_decimal(&mut s, self.false_negatives as u64);
        s.append(" (fn_rate ");
        s.append(fn_rate);
        s.append(", gate <= 0.200)\n  unfieldable: ");
        push_decimal(&mut s, self.unfieldable as u64);
        s.append(" | drain-winnable (diag): ");
        push_decimal(&mut s, self.drain_winnable as u64);
        s
    }
}

/// Counting keeps the counts adding up, and exactly the failing rows raise an error
/// count.
pub proof fn counting_adds_up(c: Calibration, row: CalibrationRow)
    requires
        c.wf(),
        c.scenarios < u32::MAX,
    ensures
        c.counted(row).wf(),
        c.counted(row).false_positives + c.counted(row).false_negatives == c.false_positives
            + c.false_negatives + if passes(row) {
            0int
        } else {
            1int
        },
{
}

/// Where nothing was fielded or deferred, the gates hold.
pub proof fn empty_tally_holds_the_gates()
    ensures
        fresh_tally().wf(),
        fresh_tally().fp_held(),
        fresh_tally().fn_held(),
{
}

/// The validator of the sizing oracle, with its tally over all scenarios.
#[derive(Clone, Copy, Debug)]
pub struct OracleCalibration {
    tally: Calibration,
}

impl View for OracleCalibration {
    type V = Calibration;

    closed spec fn view(&self) -> Calibration {
        self.tally
    }
}

fn row_label(row: CalibrationRow) -> (r: &'static str)
    ensures
        r@ == row_detail(row),
{
    match row {
        CalibrationRow::DrainWinnable => "winnable (drain) — diagnostic, not breach-graded",
        CalibrationRow::Breached => "winnable + fielded → breached",
        CalibrationRow::FalsePositive => "FALSE POSITIVE: winnable + fielded but did NOT breach",
        CalibrationRow::Unplaceable => "winnable but bed geometry can't place it (excluded)",
        CalibrationRow::Unaffordable =>
            "winnable but required force exceeds one squad at this energy (defer-by-affordability)",
        CalibrationRow::FalseNegative => "FALSE NEGATIVE: deferred but the ceiling squad breached",
        CalibrationRow::CorrectDefer => "deferred — the ceiling squad could not breach (correct)",
    }
}

/// How an observation counts.
pub fn classify(o: OracleObservation) -> (r: CalibrationRow)
    ensures
        r == row_of(o),
{
    if o.plan.winnable {
        if o.plan.mode == AssaultMode::Drain {
            return CalibrationRow::DrainWinnable;
        }
        if !o.plan.has_composition {
            return CalibrationRow::Unaffordable;
        }
        return match o.breached {
            Some(true) => CalibrationRow::Breached,
            Some(false) => CalibrationRow::FalsePositive,
            None => CalibrationRow::Unplaceable,
        };
    }
    match o.breached {
        Some(true) => CalibrationRow::FalseNegative,
        _ => CalibrationRow::CorrectDefer,
    }
}

impl Default for OracleCalibration {
    fn default() -> (r: Self)
        ensures
            r@ == fresh_tally(),
    {
        OracleCalibration::new()
    }
}

impl OracleCalibration {
    pub fn new() -> (r: OracleCalibration)
        ensures
            r@ == fresh_tally(),
    {
        OracleCalibration { tally: Calibration::default() }
    }

    pub fn tally(&self) -> (r: Calibration)
        ensures
            r == self@,
    {
        self.tally
    }

    /// Counts an observation and judges it.
    pub fn judge(&mut self, o: OracleObservation) -> (v: Verdict)
        requires
            old(self)@.wf(),
            old(self)@.scenarios < u32::MAX,
        ensures
            final(self)@ == old(self)@.counted(row_of(o)),
            final(self)@.wf(),
            v.pass == passes(row_of(o)),
            v.label@ == "oracle-calibration"@,
            v.detail@ == row_detail(row_of(o)),
    {
        let row: CalibrationRow = classify(o);
        self.tally.scenarios = self.tally.scenarios + 1;
        let mut pass: bool = true;
        match row {
            CalibrationRow::DrainWinnable => {
                self.tally.drain_winnable = self.tally.drain_winnable + 1;
            },
            CalibrationRow::Breached => {
                self.tally.fielded = self.tally.fielded + 1;
            },
            CalibrationRow::FalsePositive => {
                self.tally.fielded = self.tally.fielded + 1;
                self.tally.false_positives = self.tally.false_positives + 1;
                pass = false;
            },
            CalibrationRow::Unplaceable | CalibrationRow::Unaffordable => {
                self.tally.unfieldable = self.tally.unfieldable + 1;
            },
            CalibrationRow::FalseNegative => {
                self.tally.deferred = self.tally.deferred + 1;
                self.tally.false_negatives = self.tally.false_negatives + 1;
                pass = false;
            },
            CalibrationRow::CorrectDefer => {
                self.tally.deferred = self.tally.deferred + 1;
            },
        }
        Verdict {
            pass,
            label: String::from_str("oracle-calibration"),
            detail: String::from_str(row_label(row)),
        }
    }
}

/// The tally of observations, in order.
pub open spec fn tallied(obs: Seq<OracleObservation>) -> Calibration
    decreases obs.len(),
{
    if obs.len() == 0 {
        fresh_tally()
    } else {
        tallied(obs.drop_last()).counted(row_of(obs.last()))
    }
}

/// A validator that judges the scenarios of a suite, in order, by what was seen of each.
#[derive(Debug)]
pub struct ObservedCalibration {
    oracle: OracleCalibration,
    observed: Vec<OracleObservation>,
}

impl ObservedCalibration {
    #[verifier::type_invariant]
    closed spec fn inv(self) -> bool {
        self.oracle@.wf() && self.observed@.len() <= u32::MAX
    }

    /// What was counted so far.
    pub closed spec fn counts(self) -> Calibration {
        self.oracle@
    }

    /// What was seen of each scenario.
    pub closed spec fn seen(self) -> Seq<OracleObservation> {
        self.observed@
    }

    pub fn new(observed: Vec<OracleObservation>) -> (r: ObservedCalibration)
        requires
            observed@.len() <= u32::MAX,
        ensures
            r.counts() == fresh_tally(),
            r.seen() == observed@,
    {
        ObservedCalibration { oracle: OracleCalibration::new(), observed }
    }

    pub fn tally(&self) -> (r: Calibration)
        ensures
            r == self.counts(),
            r.wf(),
    {
        proof {
            use_type_invariant(self);
        }
        self.oracle.tally()
    }
}

impl Validator for ObservedCalibration {
    open spec fn name(self) -> Seq<char> {
        "oracle-calibration"@
    }

    /// The next observation is counted and judged; past the last one nothing is.
    open spec fn judged(self, scenario: Scenario, after: Self, v: Verdict) -> bool {
        let at = self.counts().scenarios;
        &&& after.seen() == self.seen()
        &&& v.label@ == "oracle-calibration"@
        &&& if at < self.seen().len() {
            let row = row_of(self.seen()[at as int]);
            &&& after.counts() == self.counts().counted(row)
            &&& v.pass == passes(row)
            &&& v.detail@ == row_detail(row)
        } else {
            &&& after.counts() == self.counts()
            &&& !v.pass
            &&& v.detail@ == "not observed"@
        }
    }

    fn label(&self) -> (r: String) {
        String::from_str("oracle-calibration")
    }

    fn validate(&mut self, scenario: &Scenario) -> (v: Verdict) {
        proof {
            use_type_invariant(&*self);
        }
        let at: usize = self.oracle.tally().scenarios as usize;
        if at < self.observed.len() {
            let mut o: OracleCalibration = self.oracle;
            let v: Verdict = o.judge(self.observed[at]);
            self.oracle = o;
            v
        } else {
            Verdict {
                pass: false,
                label: String::from_str("oracle-calibration"),
                detail: String::from_str("not observed"),
            }
        }
    }
}

/// After so many scenarios in turn as many observations are counted.
proof fn lemma_counted_in_turn(
    generator: RandomDefendedBase,
    scenarios: Seq<Scenario>,
    judges: Seq<ObservedCalibration>,
    verdicts: Seq<Verdict>,
    observed: Seq<OracleObservation>,
    i: int,
)
    requires
        judged_in_turn(generator, scenarios, judges, verdicts),
        verdicts.len() == observed.len(),
        observed.len() <= u32::MAX,
        judges[0].counts() == fresh_tally(),
        judges[0].seen() == observed,
        0 <= i <= observed.len(),
    ensures
        judges[i].seen() == observed,
        judges[i].counts() == tallied(observed.take(i)),
        judges[i].counts().scenarios == i,
    decreases i,
{
    if i == 0 {
        assert(observed.take(0) =~= Seq::<OracleObservation>::empty());
    } else {
        lemma_counted_in_turn(generator, scenarios, judges, verdicts, observed, i - 1);
        assert(judges[i - 1].judged(scenarios[i - 1], judges[i - 1 + 1], verdicts[i - 1]));
        assert(observed.take(i).drop_last() =~= observed.take(i - 1));
    }
}

/// The calibration over `n` seeded bases, from what was seen of each.
pub fn calibrate(n: u32, observed: Vec<OracleObservation>) -> (c: Calibration)
    requires
        observed@.len() == n,
    ensures
        c == tallied(observed@),
        c.wf(),
        c.scenarios == n,
{
    let generator = RandomDefendedBase { n };
    let ghost seen = observed@;
    let mut validator: ObservedCalibration = ObservedCalibration::new(observed);
    let ghost fresh = validator;
    let report: SuiteReport = run_suite(&generator, &mut validator);
    proof {
        let (scenarios, judges) = choose|scenarios: Seq<Scenario>, judges: Seq<ObservedCalibration>|
            #[trigger] judged_in_turn(generator, scenarios, judges, report.verdicts@) && judges[0]
                == fresh && judges.last() == validator;
        lemma_counted_in_turn(generator, scenarios, judges, report.verdicts@, seen, n as int);
        assert(seen.take(n as int) =~= seen);
    }
    validator.tally()
}

/// A stop reason's name.
pub open spec fn stop_text(stop: StopReason) -> Seq<char> {
    match stop {
        StopReason::ObjectivesComplete => "ObjectivesComplete"@,
        StopReason::ControllerNeutralized => "ControllerNeutralized"@,
        StopReason::SideWiped(o) => "SideWiped("@ + decimal(o as nat) + ")"@,
        StopReason::Timeout => "Timeout"@,
    }
}

pub open spec fn bool_text(b: bool) -> Seq<char> {
    if b {
        "true"@
    } else {
        "false"@
    }
}

fn push_stop(s: &mut String, stop: StopReason)
    ensures
        final(s)@ == old(s)@ + stop_text(stop),
{
    let ghost before = s@;
    match stop {
        StopReason::ObjectivesComplete => {
            s.append("ObjectivesComplete");
        },
        StopReason::ControllerNeutralized => {
            s.append("ControllerNeutralized");
        },
        StopReason::SideWiped(o) => {
            s.append("SideWiped(");
            push_decimal(s, o as u64);
            s.append(")");
            assert(s@ =~= before + stop_text(stop));
        },
        StopReason::Timeout => {
            s.append("Timeout");
        },
    }
}

fn push_bool(s: &mut String, b: bool)
    ensures
        final(s)@ == old(s)@ + bool_text(b),
{
    if b {
        s.append("true");
    } else {
        s.append("false");
    }
}

/// A living attacker stands within reach of the objective, in its room.
pub open spec fn near_objective(c: SimCreep, attacker: PlayerId, o: Objective) -> bool {
    &&& c.fights_for(attacker)
    &&& c.pos.room_of() == (o.room.0 as int, o.room.1 as int)
    &&& c.pos.tiles_to(o.pos) <= 8
}

/// The attacker reached the objective.
pub open spec fn reached(w: CombatWorld, attacker: PlayerId, o: Objective) -> bool {
    exists|i: int|
        0 <= i < w.creeps@.len() && near_objective(#[trigger] w.creeps@[i], attacker, o)
}

/// Whether a living attacker ended within range 8 of the objective, in its room.
pub fn reached_vicinity(w: &CombatWorld, attacker: PlayerId, o: &Objective) -> (r: bool)
    requires
        w.wf(),
        o.wf(),
    ensures
        r == reached(*w, attacker, *o),
{
    let mut i: usize = 0;
    while i < w.creeps.len()
        invariant
            w.wf(),
            o.wf(),
            i <= w.creeps@.len(),
            forall|k: int|
                0 <= k < i ==> !near_objective(#[trigger] w.creeps@[k], attacker, *o),
        decreases w.creeps.len() - i,
    {
        let c: SimCreep = w.creeps[i];
        let room: (i32, i32) = c.pos.room();
        if c.is_fighting_for(attacker) && room.0 == o.room.0 && room.1 == o.room.1 && tile_range(
            c.pos,
            o.pos,
        ) <= 8 {
            assert(near_objective(w.creeps@[i as int], attacker, *o));
            return true;
        }
        i = i + 1;
    }
    false
}

/// The traversal lens: a moving squad must reach its objective or fight to an end.
#[derive(Clone, Copy, Debug, Default)]
pub struct ManagedSquadIntegration;

/// The traversal lens passes on any end of the fight, and on a timeout near the
/// objective.
pub open spec fn traversal_passes(stop: StopReason, near: bool) -> bool {
    stop != StopReason::Timeout || near
}

pub open spec fn traversal_detail(stop: StopReason, ticks: u32, near: bool) -> Seq<char> {
    "managed ranged assault → "@ + stop_text(stop) + " @ t"@ + decimal(ticks as nat)
        + " (reached="@ + bool_text(near) + ")"@
}

impl ManagedSquadIntegration {
    /// Judges a run by the world that it ended in.
    pub fn judge(
        &self,
        world: &CombatWorld,
        attacker: PlayerId,
        o: &Objective,
        stop: StopReason,
        ticks: u32,
    ) -> (v: Verdict)
        requires
            world.wf(),
            o.wf(),
        ensures
            v.pass == traversal_passes(stop, reached(*world, attacker, *o)),
            v.label@ == "managed-squad-integration"@,
            v.detail@ == traversal_detail(stop, ticks, reached(*world, attacker, *o)),
            !v.pass ==> stop is Timeout && !reached(*world, attacker, *o),
            v.pass ==> !(stop is Timeout) || reached(*world, attacker, *o),
    {
        let near: bool = reached_vicinity(world, attacker, o);
        let mut detail: String = String::from_str("managed ranged assault → ");
        push_stop(&mut detail, stop);
        detail.append(" @ t");
        push_decimal(&mut detail, ticks as u64);
        detail.append(" (reached=");
        push_bool(&mut detail, near);
        detail.append(")");
        Verdict {
            pass: stop != StopReason::Timeout || near,
            label: String::from_str("managed-squad-integration"),
            detail,
        }
    }

    /// The verdict where the squad could not be fielded.
    pub fn unfielded(&self) -> (v: Verdict)
        ensures
            v.pass,
            v.label@ == "managed-squad-integration"@,
            v.detail@ == "could not field at the entry (excluded)"@,
    {
        Verdict {
            pass: true,
            label: String::from_str("managed-squad-integration"),
            detail: String::from_str("could not field at the entry (excluded)"),
        }
    }
}

/// The self-play lens: both sides are played, and a defended fight must not freeze.
#[derive(Clone, Copy, Debug, Default)]
pub struct SelfPlay;

/// Where the defenders' creep with this id started; the last in order counts.
pub open spec fn start_of(s: Seq<SimCreep>, defender: PlayerId, id: u32) -> Option<WPos>
    decreases s.len(),
{
    if s.len() == 0 {
        None
    } else if s.last().owner == defender && s.last().id == id {
        Some(s.last().pos)
    } else {
        start_of(s.drop_last(), defender, id)
    }
}

/// The creep is one of the defenders and no longer where it started.
pub open spec fn has_moved(
    c: SimCreep,
    before: Seq<SimCreep>,
    defender: PlayerId,
    ids: Seq<u32>,
) -> bool {
    &&& ids.contains(c.id)
    &&& start_of(before, defender, c.id) matches Some(p) && p.tiles_to(c.pos) > 0
}

pub open spec fn some_moved(
    after: Seq<SimCreep>,
    before: Seq<SimCreep>,
    defender: PlayerId,
    ids: Seq<u32>,
) -> bool {
    exists|i: int|
        0 <= i < after.len() && has_moved(#[trigger] after[i], before, defender, ids)
}

/// The self-play lens fails only a defended fight that timed out with the defenders
/// where they stood.
pub open spec fn self_play_passes(defenders: nat, moved: bool, stop: StopReason) -> bool {
    defenders == 0 || moved || stop != StopReason::Timeout
}

pub open spec fn self_play_detail(
    stop: StopReason,
    ticks: u32,
    defenders: nat,
    moved: bool,
) -> Seq<char> {
    "self-play → "@ + stop_text(stop) + " @ t"@ + decimal(ticks as nat) + " (defenders="@
        + decimal(defenders) + ", moved="@ + bool_text(moved) + ", decisive="@ + bool_text(
        stop != StopReason::Timeout,
    ) + ")"@
}

fn find_start(s: &Vec<SimCreep>, defender: PlayerId, id: u32) -> (r: Option<WPos>)
    requires
        forall|i: int| 0 <= i < s@.len() ==> (#[trigger] s@[i]).pos.in_world(),
    ensures
        r == start_of(s@, defender, id),
        r matches Some(p) ==> p.in_world(),
{
    let mut i: usize = s.len();
    assert(s@.take(i as int) =~= s@);
    while i > 0
        invariant
            i <= s@.len(),
            forall|k: int| 0 <= k < s@.len() ==> (#[trigger] s@[k]).pos.in_world(),
            start_of(s@.take(i as int), defender, id) == start_of(s@, defender, id),
        decreases i,
    {
        let c: SimCreep = s[i - 1];
        assert(s@.take(i as int).last() == c);
        assert(s@.take(i as int).drop_last() =~= s@.take(i - 1));
        if c.owner == defender && c.id == id {
            return Some(c.pos);
        }
        i = i - 1;
    }
    None
}

fn contains_id(ids: &Vec<u32>, id: u32) -> (r: bool)
    ensures
        r == ids@.contains(id),
{
    let mut i: usize = 0;
    while i < ids.len()
        invariant
            i <= ids@.len(),
            forall|k: int| 0 <= k < i ==> #[trigger] ids@[k] != id,
        decreases ids.len() - i,
    {
        if ids[i] == id {
            assert(ids@[i as int] == id);
            return true;
        }
        i = i + 1;
    }
    false
}

/// Whether one of the defenders is no longer where it started.
pub fn defender_moved(
    after: &CombatWorld,
    before: &CombatWorld,
    defender: PlayerId,
    ids: &Vec<u32>,
) -> (r: bool)
    requires
        after.wf(),
        before.wf(),
    ensures
        r == some_moved(after.creeps@, before.creeps@, defender, ids@),
{
    let mut i: usize = 0;
    while i < after.creeps.len()
        invariant
            after.wf(),
            before.wf(),
            i <= after.creeps@.len(),
            forall|k: int|
                0 <= k < i ==> !has_moved(
                    #[trigger] after.creeps@[k],
                    before.creeps@,
                    defender,
                    ids@,
                ),
        decreases after.creeps.len() - i,
    {
        let c: SimCreep = after.creeps[i];
        if contains_id(ids, c.id) {
            if let Some(p) = find_start(&before.creeps, defender, c.id) {
                if tile_range(p, c.pos) > 0 {
                    assert(has_moved(after.creeps@[i as int], before.creeps@, defender, ids@));
                    return true;
                }
            }
        }
        i = i + 1;
    }
    false
}

impl SelfPlay {
    /// Judges a run by the worlds before and after it and the defenders' ids.
    pub fn judge(
        &self,
        scenario: &Scenario,
        after: &CombatWorld,
        ids: &Vec<u32>,
        stop: StopReason,
        ticks: u32,
    ) -> (v: Verdict)
        requires
            scenario.world.wf(),
            after.wf(),
        ensures
            ({
                let moved = some_moved(
                    after.creeps@,
                    scenario.world.creeps@,
                    scenario.defender_owner,
                    ids@,
                );
                &&& v.pass == self_play_passes(ids@.len(), moved, stop)
                &&& v.label@ == "self-play"@
                &&& v.detail@ == self_play_detail(stop, ticks, ids@.len(), moved)
            }),
    {
        let moved: bool = defender_moved(after, &scenario.world, scenario.defender_owner, ids);
        let decisive: bool = stop != StopReason::Timeout;
        let mut detail: String = String::from_str("self-play → ");
        push_stop(&mut detail, stop);
        detail.append(" @ t");
        push_decimal(&mut detail, ticks as u64);
        detail.append(" (defenders=");
        push_decimal(&mut detail, ids.len() as u64);
        detail.append(", moved=");
        push_bool(&mut detail, moved);
        detail.append(", decisive=");
        push_bool(&mut detail, decisive);
        detail.append(")");
        Verdict {
            pass: ids.len() == 0 || moved || decisive,
            label: String::from_str("self-play"),
            detail,
        }
    }

    /// The verdict where the attacker could not be fielded.
    pub fn unfielded(&self) -> (v: Verdict)
        ensures
            v.pass,
            v.label@ == "self-play"@,
            v.detail@ == "could not field the attacker (excluded)"@,
    {
        Verdict {
            pass: true,
            label: String::from_str("self-play"),
            detail: String::from_str("could not field the attacker (excluded)"),
        }
    }
}

/// The win-rate lens: does the force that the sizing fields win?
#[derive(Clone, Copy, Debug, PartialEq, Eq, Structural)]
pub struct SizingWins {
    pub attempted: u32,
    pub won: u32,
    /// What the winning forces cost to spawn, together.
    pub winning_spawn_cost: u64,
}

/// The plan was put to the test: a breach that was fielded and placed.
pub open spec fn is_attempt(o: OracleObservation) -> bool {
    &&& o.plan.winnable
    &&& o.plan.mode == AssaultMode::Breach
    &&& o.plan.has_composition
    &&& o.breached is Some
}

impl Default for SizingWins {
    fn default() -> (r: SizingWins)
        ensures
            r == (SizingWins { attempted: 0, won: 0, winning_spawn_cost: 0 }),
    {
        SizingWins { attempted: 0, won: 0, winning_spawn_cost: 0 }
    }
}

impl SizingWins {
    pub open spec fn wf(self) -> bool {
        self.won <= self.attempted
    }

    pub open spec fn counted(self, o: OracleObservation, cost: u32) -> SizingWins {
        if !is_attempt(o) {
            self
        } else {
            SizingWins {
                attempted: (self.attempted + 1) as u32,
                won: if o.breached == Some(true) {
                    (self.won + 1) as u32
                } else {
                    self.won
                },
                winning_spawn_cost: if o.breached == Some(true) {
                    (self.winning_spawn_cost + cost) as u64
                } else {
                    self.winning_spawn_cost
                },
            }
        }
    }

    /// Counts an observation and judges it. `cost` is what the sized force costs.
    pub fn judge(&mut self, o: OracleObservation, cost: u32) -> (v: Verdict)
        requires
            old(self).wf(),
            old(self).attempted < u32::MAX,
            old(self).winning_spawn_cost + cost <= u64::MAX,
        ensures
            *final(self) == old(self).counted(o, cost),
            final(self).wf(),
            v.pass == (!is_attempt(o) || o.breached == Some(true)),
            !v.pass ==> final(self).attempted == old(self).attempted + 1 && final(self).won
                == old(self).won,
            v.pass ==> final(self).attempted - old(self).attempted == final(self).won
                - old(self).won,
            v.label@ == "sizing-wins"@,
            v.detail@ == if !is_attempt(o) {
                "deferred / drain / unfieldable (not a sizing attempt)"@
            } else if o.breached == Some(true) {
                "fielded → WON"@
            } else {
                "fielded → lost"@
            },
    {
        if o.plan.winnable && o.plan.mode == AssaultMode::Breach && o.plan.has_composition {
            if let Some(breached) = o.breached {
                self.attempted = self.attempted + 1;
                if breached {
                    self.won = self.won + 1;
                    self.winning_spawn_cost = self.winning_spawn_cost + cost as u64;
                }
                let detail: String = if breached {
                    String::from_str("fielded → WON")
                } else {
                    String::from_str("fielded → lost")
                };
                return Verdict { pass: breached, label: String::from_str("sizing-wins"), detail };
            }
        }
        Verdict {
            pass: true,
            label: String::from_str("sizing-wins"),
            detail: String::from_str("deferred / drain / unfieldable (not a sizing attempt)"),
        }
    }
}

/// How a squad sized to clear creeps fared.
#[derive(Clone, Copy, Debug, PartialEq, Eq, Structural)]
pub struct ClearOutcome {
    pub cleared: bool,
    pub ticks: u32,
    pub spawn_cost: u32,
    pub ranged: u32,
    pub heal: u32,
}

/// A run that ended with the defenders wiped has cleared them.
pub fn clear_outcome(
    stop: StopReason,
    defender: PlayerId,
    ticks: u32,
    spawn_cost: u32,
    ranged: u32,
    heal: u32,
) -> (r: ClearOutcome)
    ensures
        r == (ClearOutcome {
            cleared: stop == StopReason::SideWiped(defender),
            ticks,
            spawn_cost,
            ranged,
            heal,
        }),
        r.cleared ==> stop is SideWiped && stop->0 == defender,
        stop matches StopReason::SideWiped(o) && o == defender ==> r.cleared,
{
    let cleared: bool = match stop {
        StopReason::SideWiped(o) => o == defender,
        _ => false,
    };
    ClearOutcome { cleared, ticks, spawn_cost, ranged, heal }
}

/// The creep-clear lens: does a squad sized to clear creeps clear them?
#[derive(Clone, Copy, Debug, PartialEq, Eq, Structural)]
pub struct CreepClearWins {
    pub attempted: u32,
    pub won: u32,
    pub winning_spawn_cost: u64,
}

pub open spec fn clear_detail(o: ClearOutcome) -> Seq<char> {
    "sized→"@ + if o.cleared {
        "cleared"@
    } else {
        "FAILED"@
    } + " @ t"@ + decimal(o.ticks as nat) + " ("@ + decimal(o.ranged as nat) + " ranged, "@
        + decimal(o.heal as nat) + " heal)"@
}

impl Default for CreepClearWins {
    fn default() -> (r: CreepClearWins)
        ensures
            r == (CreepClearWins { attempted: 0, won: 0, winning_spawn_cost: 0 }),
    {
        CreepClearWins { attempted: 0, won: 0, winning_spawn_cost: 0 }
    }
}

impl CreepClearWins {
    pub open spec fn wf(self) -> bool {
        self.won <= self.attempted
    }

    pub open spec fn counted(self, o: Option<ClearOutcome>) -> CreepClearWins {
        match o {
            None => self,
            Some(o) => CreepClearWins {
                attempted: (self.attempted + 1) as u32,
                won: if o.cleared {
                    (self.won + 1) as u32
                } else {
                    self.won
                },
                winning_spawn_cost: if o.cleared {
                    (self.winning_spawn_cost + o.spawn_cost) as u64
                } else {
                    self.winning_spawn_cost
                },
            },
        }
    }

    /// Counts an outcome and judges it; `None` where no squad was fielded.
    pub fn judge(&mut self, outcome: Option<ClearOutcome>) -> (v: Verdict)
        requires
            old(self).wf(),
            old(self).attempted < u32::MAX,
            outcome matches Some(o) ==> old(self).winning_spawn_cost + o.spawn_cost <= u64::MAX,
        ensures
            *final(self) == old(self).counted(outcome),
            final(self).wf(),
            v.pass == (outcome matches Some(o) ==> o.cleared),
            !v.pass ==> final(self).attempted == old(self).attempted + 1 && final(self).won
                == old(self).won,
            v.pass ==> final(self).attempted - old(self).attempted == final(self).won
                - old(self).won,
            v.label@ == "creep-clear-wins"@,
            v.detail@ == match outcome {
                Some(o) => clear_detail(o),
                None => "deferred / unfieldable (excluded)"@,
            },
    {
        match outcome {
            None => Verdict {
                pass: true,
                label: String::from_str("creep-clear-wins"),
                detail: String::from_str("deferred / unfieldable (excluded)"),
            },
            Some(o) => {
                self.attempted = self.attempted + 1;
                if o.cleared {
                    self.won = self.won + 1;
                    self.winning_spawn_cost = self.winning_spawn_cost + o.spawn_cost as u64;
                }
                let mut detail: String = String::from_str("sized→");
                if o.cleared {
                    detail.append("cleared");
                } else {
                    detail.append("FAILED");
                }
                detail.append(" @ t");
                push_decimal(&mut detail, o.ticks as u64);
                detail.append(" (");
                push_decimal(&mut detail, o.ranged as u64);
                detail.append(" ranged, ");
                push_decimal(&mut detail, o.heal as u64);
                detail.append(" heal)");
                Verdict { pass: o.cleared, label: String::from_str("creep-clear-wins"), detail }
            },
        }
    }
}

// ── What the judges are for ────────────────────────────────────────────────

/// A plan that is thought winnable and was fielded stands or falls by the breach. A plan that
/// defers is wrong only where the ceiling squad breached. Drains and plans that could not be
/// fielded count for neither.
pub proof fn an_observation_counts_once(c: Calibration, o: OracleObservation)
    requires
        c.scenarios < u32::MAX,
        c.wf(),
    ensures
        ({
            let n = c.counted(row_of(o));
            let tried = o.plan.winnable && !(o.plan.mode is Drain) && o.plan.has_composition
                && o.breached is Some;
            &&& n.scenarios == c.scenarios + 1
            &&& tried ==> n.fielded == c.fielded + 1
            &&& !tried ==> n.fielded == c.fielded
            &&& tried && o.breached == Some(false) ==> n.false_positives == c.false_positives + 1
            &&& !(tried && o.breached == Some(false)) ==> n.false_positives == c.false_positives
            &&& !o.plan.winnable ==> n.deferred == c.deferred + 1
            &&& o.plan.winnable ==> n.deferred == c.deferred
            &&& !o.plan.winnable && o.breached == Some(true) ==> n.false_negatives
                == c.false_negatives + 1
            &&& o.plan.winnable || o.breached != Some(true) ==> n.false_negatives
                == c.false_negatives
            &&& o.plan.winnable && o.plan.mode is Drain ==> n.drain_winnable == c.drain_winnable
                + 1
            &&& !(o.plan.winnable && o.plan.mode is Drain) ==> n.drain_winnable
                == c.drain_winnable
            &&& o.plan.winnable && !(o.plan.mode is Drain) && !tried ==> n.unfieldable
                == c.unfieldable + 1
            &&& !(o.plan.winnable && !(o.plan.mode is Drain) && !tried) ==> n.unfieldable
                == c.unfieldable
        }),
{
}

/// A verdict fails exactly where the plan and the breach contradict each other.
pub proof fn only_contradictions_fail(o: OracleObservation)
    ensures
        o.plan.winnable && o.plan.mode is Drain ==> passes(row_of(o)),
        o.plan.winnable && !o.plan.has_composition ==> passes(row_of(o)),
        o.breached is None ==> passes(row_of(o)),
        o.plan.winnable && o.breached == Some(true) ==> passes(row_of(o)),
        !o.plan.winnable && o.breached == Some(false) ==> passes(row_of(o)),
        !o.plan.winnable && o.breached == Some(true) ==> !passes(row_of(o)),
        o.plan.winnable && !(o.plan.mode is Drain) && o.plan.has_composition && o.breached
            == Some(false) ==> !passes(row_of(o)),
{
}

/// The order of the observations does not matter to the counts of a tally: each counts by
/// itself.
pub proof fn observations_count_alone(obs: Seq<OracleObservation>, o: OracleObservation)
    requires
        obs.len() < u32::MAX,
    ensures
        tallied(obs).wf(),
        tallied(obs).scenarios == obs.len(),
        tallied(obs.push(o)).scenarios == obs.len() + 1,
        tallied(obs.push(o)).false_positives - tallied(obs).false_positives == if o.plan.winnable
            && !(o.plan.mode is Drain) && o.plan.has_composition && o.breached == Some(false) {
            1int
        } else {
            0
        },
        tallied(obs.push(o)).false_negatives - tallied(obs).false_negatives == if !o.plan.winnable
            && o.breached == Some(true) {
            1int
        } else {
            0
        },
    decreases obs.len(),
{
    if obs.len() > 0 {
        observations_count_alone(obs.drop_last(), obs.last());
        assert(obs.drop_last().push(obs.last()) =~= obs);
    }
    assert(obs.push(o).drop_last() =~= obs);
    an_observation_counts_once(tallied(obs), o);
}

/// The gates: a failure in a hundred fielded squads is still held and one in ninety-nine is
/// not; a wrong defer in five is held and one in four is not. More that went well never opens
/// a gate, one more failure never shuts it.
pub proof fn gates_hold_their_rates(c: Calibration, d: Calibration)
    ensures
        c.false_positives == 1 ==> (c.fp_held() <==> c.fielded >= 100),
        c.false_negatives == 1 ==> (c.fn_held() <==> c.deferred >= 5),
        c.false_positives == 0 ==> c.fp_held(),
        c.false_negatives == 0 ==> c.fn_held(),
        c.fp_held() && d.false_positives <= c.false_positives && d.fielded >= c.fielded
            ==> d.fp_held(),
        c.fn_held() && d.false_negatives <= c.false_negatives && d.deferred >= c.deferred
            ==> d.fn_held(),
        c.fp_held() && d.fp_held() ==> (c.false_positives + d.false_positives) * 100 <= c.fielded
            + d.fielded,
        c.fn_held() && d.fn_held() ==> (c.false_negatives + d.false_negatives) * 5 <= c.deferred
            + d.deferred,
        (c.false_positives + 1) * 100 > c.fielded && d.false_positives == c.false_positives + 1
            && d.fielded == c.fielded ==> !d.fp_held(),
        (c.false_negatives + 1) * 5 > c.deferred && d.false_negatives == c.false_negatives + 1
            && d.deferred == c.deferred ==> !d.fn_held(),
{
}

/// A squad has reached its objective when one of its living creeps stands in the room within
/// eight tiles; nine are too far, and neither the dead nor the defenders count.
pub proof fn the_living_reach_the_objective(
    w: CombatWorld,
    attacker: PlayerId,
    o: Objective,
    i: int,
)
    requires
        0 <= i < w.creeps@.len(),
    ensures
        w.creeps@[i].owner == attacker && w.creeps@[i].hits >= 1 && w.creeps@[i].pos.room_of() == (
            o.room.0 as int,
            o.room.1 as int,
        ) && w.creeps@[i].pos.tiles_to(o.pos) <= 8 ==> reached(w, attacker, o),
        (forall|k: int|
            0 <= k < w.creeps@.len() ==> (#[trigger] w.creeps@[k]).owner != attacker
                || w.creeps@[k].hits == 0 || w.creeps@[k].pos.tiles_to(o.pos) >= 9
                || w.creeps@[k].pos.room_of() != (o.room.0 as int, o.room.1 as int))
            ==> !reached(w, attacker, o),
{
    let c = w.creeps@[i];
    if c.owner == attacker && c.hits >= 1 && c.pos.room_of() == (o.room.0 as int, o.room.1 as int)
        && c.pos.tiles_to(o.pos) <= 8 {
        assert(near_objective(w.creeps@[i], attacker, o));
    }
}

/// Any end of the fight passes the traversal lens; a timeout passes only near the objective.
pub proof fn traversal_ends_or_arrives(stop: StopReason)
    ensures
        traversal_passes(stop, true),
        traversal_passes(StopReason::Timeout, false) == false,
        stop is ObjectivesComplete || stop is SideWiped || stop is ControllerNeutralized
            ==> traversal_passes(stop, false),
{
}

/// Self-play fails in one case only: defenders that stood still through a timeout.
pub proof fn only_frozen_defenders_fail(defenders: nat, stop: StopReason)
    ensures
        self_play_passes(0, false, stop),
        self_play_passes(defenders, true, stop),
        !(stop is Timeout) ==> self_play_passes(defenders, false, stop),
        defenders > 0 ==> !self_play_passes(defenders, false, StopReason::Timeout),
{
}

/// A defender has moved when it is one of those watched, was a defender's creep before, and
/// stands on another tile than it did; on the same tile it has not.
pub proof fn a_moved_defender_left_its_tile(
    c: SimCreep,
    before: Seq<SimCreep>,
    defender: PlayerId,
    ids: Seq<u32>,
    j: int,
)
    requires
        0 <= j < before.len(),
        before[j].id == c.id,
        before[j].owner == defender,
        forall|k: int| j < k < before.len() ==> (#[trigger] before[k]).id != c.id || before[k].owner
            != defender,
    ensures
        start_of(before, defender, c.id) == Some(before[j].pos),
        ids.contains(c.id) ==> (has_moved(c, before, defender, ids) <==> c.pos != before[j].pos),
        !ids.contains(c.id) ==> !has_moved(c, before, defender, ids),
    decreases before.len(),
{
    let n = before.len() - 1;
    if j < n {
        assert(before[n].id != c.id || before[n].owner != defender);
        a_moved_defender_left_its_tile(c, before.drop_last(), defender, ids, j);
    }
    crate::position::tile_distance_is_a_metric(before[j].pos, c.pos, c.pos);
}

/// A creep that was no defender's before has not moved.
pub proof fn a_new_creep_has_not_moved(
    c: SimCreep,
    before: Seq<SimCreep>,
    defender: PlayerId,
    ids: Seq<u32>,
)
    requires
        forall|k: int|
            0 <= k < before.len() ==> (#[trigger] before[k]).id != c.id || before[k].owner
                != defender,
    ensures
        start_of(before, defender, c.id) is None,
        !has_moved(c, before, defender, ids),
    decreases before.len(),
{
    if before.len() > 0 {
        let n = before.len() - 1;
        assert(before[n].id != c.id || before[n].owner != defender);
        assert forall|k: int| 0 <= k < before.drop_last().len() implies (
        #[trigger] before.drop_last()[k]).id != c.id || before.drop_last()[k].owner
            != defender by {
            assert(before[k].id != c.id || before[k].owner != defender);
        }
        a_new_creep_has_not_moved(c, before.drop_last(), defender, ids);
    }
}

/// Only a breach that was planned, carried and placed counts as an attempt; a win counts its
/// cost, a loss counts none.
pub proof fn sizing_counts_its_attempts(s: SizingWins, o: OracleObservation, cost: u32)
    requires
        s.wf(),
        s.attempted < u32::MAX,
        s.winning_spawn_cost + cost <= u64::MAX,
    ensures
        ({
            let n = s.counted(o, cost);
            let tried = o.plan.winnable && o.plan.mode is Breach && o.plan.has_composition
                && o.breached is Some;
            &&& !tried ==> n == s
            &&& tried ==> n.attempted == s.attempted + 1
            &&& tried && o.breached == Some(true) ==> n.won == s.won + 1 && n.winning_spawn_cost
                == s.winning_spawn_cost + cost
            &&& tried && o.breached == Some(false) ==> n.won == s.won && n.winning_spawn_cost
                == s.winning_spawn_cost
            &&& is_attempt(o) <==> tried
        }),
{
}

/// A fielded squad is an attempt; it wins where it cleared, and then its cost counts.
pub proof fn clearing_counts_its_attempts(s: CreepClearWins, o: ClearOutcome)
    requires
        s.wf(),
        s.attempted < u32::MAX,
        s.winning_spawn_cost + o.spawn_cost <= u64::MAX,
    ensures
        s.counted(None) == s,
        s.counted(Some(o)).attempted == s.attempted + 1,
        o.cleared ==> s.counted(Some(o)).won == s.won + 1 && s.counted(
            Some(o),
        ).winning_spawn_cost == s.winning_spawn_cost + o.spawn_cost,
        !o.cleared ==> s.counted(Some(o)).won == s.won && s.counted(Some(o)).winning_spawn_cost
            == s.winning_spawn_cost,
{
}

} // verus!
