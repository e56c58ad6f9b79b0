//! Replays of the harness's own engagements, each under the verdict that it came to.

use crate::evaluate::StopReason;
use crate::fielding::{
    assault_words, calibration_result, managed_result, self_play_result, self_play_words,
};
use crate::generate::{is_base_scenario, Generator, RandomDefendedBase};
use crate::lifecycle::Engagement;
use crate::scenario::Scenario;
use crate::text::{decimal, push_decimal};
use crate::visualize::{
    are_backdrops, frame_tiles, page_text, replay_to_html, world_tiles, CombatRecording, Frame,
    ReplayMeta, RoomTerrain, Shapes,
};
use crate::world::PlayerId;
use vstd::prelude::*;
use vstd::string::*;

verus! {

/// An engagement that was run and recorded. Without an end it could not be fielded.
#[derive(Debug)]
pub struct RecordedRun {
    pub end: Option<Engagement>,
    pub recording: CombatRecording,
}

/// `what → result @ tN`.
pub open spec fn ended(what: Seq<char>, result: Seq<char>, ticks: u32) -> Seq<char> {
    what + " → "@ + result + " @ t"@ + decimal(ticks as nat)
}

/// The verdict on a scripted siege.
pub open spec fn calibration_words(decision: Seq<char>, end: Option<Engagement>) -> Seq<char> {
    match end {
        Some(e) => ended(decision, assault_words(e.stop, "BREACHED"@), e.ticks),
        None => decision + " — could not place on the bed"@,
    }
}

/// The verdict on a moving assault.
pub open spec fn managed_words(end: Option<Engagement>) -> Seq<char> {
    match end {
        Some(e) => ended(
            "managed ranged assault"@,
            assault_words(e.stop, "objective destroyed"@),
            e.ticks,
        ),
        None => "managed assault — could not field at the entry"@,
    }
}

/// The verdict on a self-played match.
pub open spec fn match_words(end: Option<Engagement>, attacker: PlayerId) -> Seq<char> {
    match end {
        Some(e) => ended(
            "self-play (both sides managed)"@,
            self_play_words(e.stop, attacker),
            e.ticks,
        ),
        None => "self-play — could not field the attacker"@,
    }
}

/// A self-played match in a few words.
pub open spec fn match_outcome(end: Option<Engagement>, attacker: PlayerId) -> Seq<char> {
    match end {
        Some(e) => self_play_words(e.stop, attacker) + " @ t"@ + decimal(e.ticks as nat),
        None => "could not field"@,
    }
}

fn ending(what: &str, result: &str, ticks: u32) -> (r: String)
    ensures
        r@ == ended(what@, result@, ticks),
{
    let mut s: String = String::from_str(what);
    s.append(" → ");
    s.append(result);
    s.append(" @ t");
    push_decimal(&mut s, ticks as u64);
    s
}

/// The verdict on a scripted siege.
pub fn calibration_verdict(decision: &str, end: Option<Engagement>) -> (r: String)
    ensures
        r@ == calibration_words(decision@, end),
{
    match end {
        Some(e) => ending(decision, calibration_result(e.stop), e.ticks),
        None => {
            let mut s: String = String::from_str(decision);
            s.append(" — could not place on the bed");
            s
        },
    }
}

/// The verdict on a moving assault.
pub fn managed_verdict(end: Option<Engagement>) -> (r: String)
    ensures
        r@ == managed_words(end),
{
    match end {
        Some(e) => ending("managed ranged assault", managed_result(e.stop), e.ticks),
        None => String::from_str("managed assault — could not field at the entry"),
    }
}

/// The verdict on a self-played match.
pub fn self_play_verdict(end: Option<Engagement>, attacker: PlayerId) -> (r: String)
    ensures
        r@ == match_words(end, attacker),
{
    match end {
        Some(e) => ending(
            "self-play (both sides managed)",
            self_play_result(e.stop, attacker),
            e.ticks,
        ),
        None => String::from_str("self-play — could not field the attacker"),
    }
}

/// A self-played match in a few words.
pub fn self_play_outcome(end: Option<Engagement>, attacker: PlayerId) -> (r: String)
    ensures
        r@ == match_outcome(end, attacker),
{
    match end {
        Some(e) => {
            let mut s: String = String::from_str(self_play_result(e.stop, attacker));
            s.append(" @ t");
            push_decimal(&mut s, e.ticks as u64);
            s
        },
        None => String::from_str("could not field"),
    }
}

/// The frames that are shown of a run: none if it could not be fielded.
pub open spec fn shown_frames(run: RecordedRun) -> Seq<Frame> {
    match run.end {
        Some(_) => run.recording.frames@,
        None => seq![],
    }
}

/// The title is the scenario's label, and the rooms are those of its world and of the
/// frames.
pub open spec fn is_replay_meta(
    m: ReplayMeta,
    s: Scenario,
    run: RecordedRun,
    terrain: Seq<RoomTerrain>,
    verdict: Seq<char>,
) -> bool {
    &&& m.title@ == s.label@
    &&& m.verdict matches Some(v) && v@ == verdict
    &&& are_backdrops(m.rooms@, world_tiles(s.world) + frame_tiles(shown_frames(run)), terrain)
}

/// What a replay of a run is made from, under a verdict.
pub fn replay_data(s: &Scenario, run: &RecordedRun, terrain: &Vec<RoomTerrain>, verdict: String) -> (m:
    ReplayMeta)
    requires
        s.wf(),
        run.recording.wf(),
    ensures
        is_replay_meta(m, *s, *run, terrain@, verdict@),
{
    match run.end {
        Some(_) => ReplayMeta::from_world_and_recording(
            &s.world,
            &run.recording,
            terrain,
            s.label.as_str(),
            Some(verdict),
        ),
        None => {
            assert(world_tiles(s.world) + frame_tiles(shown_frames(*run)) =~= world_tiles(
                s.world,
            ));
            ReplayMeta::from_world(&s.world, terrain, s.label.as_str(), Some(verdict))
        },
    }
}

/// The page is the replay of a run on a scenario under a verdict.
pub open spec fn is_replay_page(
    page: Seq<char>,
    s: Scenario,
    run: RecordedRun,
    terrain: Seq<RoomTerrain>,
    shapes: Shapes,
    verdict: Seq<char>,
) -> bool {
    exists|m: ReplayMeta| #[trigger]
        is_replay_meta(m, s, run, terrain, verdict) && page == page_text(
            shown_frames(run),
            m,
            shapes,
        )
}

fn render(
    s: &Scenario,
    run: &RecordedRun,
    terrain: &Vec<RoomTerrain>,
    shapes: &Shapes,
    verdict: String,
) -> (page: String)
    requires
        s.wf(),
        run.recording.wf(),
    ensures
        is_replay_page(page@, *s, *run, terrain@, *shapes, verdict@),
{
    let ghost words = verdict@;
    let m: ReplayMeta = replay_data(s, run, terrain, verdict);
    assert(is_replay_meta(m, *s, *run, terrain@, words));
    match run.end {
        Some(_) => replay_to_html(&run.recording, &m, shapes),
        None => {
            let none: CombatRecording = CombatRecording::new();
            assert(none.frames@ =~= Seq::<Frame>::empty());
            replay_to_html(&none, &m, shapes)
        },
    }
}

/// The replay of a scripted siege, under the decision that it tests.
pub fn render_calibration_replay(
    s: &Scenario,
    decision: &str,
    run: &RecordedRun,
    terrain: &Vec<RoomTerrain>,
    shapes: &Shapes,
) -> (page: String)
    requires
        s.wf(),
        run.recording.wf(),
    ensures
        is_replay_page(
            page@,
            *s,
            *run,
            terrain@,
            *shapes,
            calibration_words(decision@, run.end),
        ),
{
    let verdict: String = calibration_verdict(decision, run.end);
    render(s, run, terrain, shapes, verdict)
}

/// The replay of a moving assault.
pub fn render_managed_replay(
    s: &Scenario,
    run: &RecordedRun,
    terrain: &Vec<RoomTerrain>,
    shapes: &Shapes,
) -> (page: String)
    requires
        s.wf(),
        run.recording.wf(),
    ensures
        is_replay_page(page@, *s, *run, terrain@, *shapes, managed_words(run.end)),
{
    let verdict: String = managed_verdict(run.end);
    render(s, run, terrain, shapes, verdict)
}

/// The replay of a self-played match.
pub fn render_self_play_replay(
    s: &Scenario,
    run: &RecordedRun,
    terrain: &Vec<RoomTerrain>,
    shapes: &Shapes,
) -> (page: String)
    requires
        s.wf(),
        run.recording.wf(),
    ensures
        is_replay_page(
            page@,
            *s,
            *run,
            terrain@,
            *shapes,
            match_words(run.end, s.attacker_owner),
        ),
{
    let verdict: String = self_play_verdict(run.end, s.attacker_owner);
    render(s, run, terrain, shapes, verdict)
}

/// The replay of the siege of a seeded base, which lies on open ground.
pub fn calibration_replay(index: u32, decision: &str, run: &RecordedRun, shapes: &Shapes) -> (page:
    String)
    requires
        index < u32::MAX,
        run.recording.wf(),
    ensures
        exists|s: Scenario| #[trigger]
            is_base_scenario(index, s) && is_replay_page(
                page@,
                s,
                *run,
                seq![],
                *shapes,
                calibration_words(decision@, run.end),
            ),
{
    let base = RandomDefendedBase { n: index + 1 };
    let s: Scenario = base.generate(index);
    let open: Vec<RoomTerrain> = Vec::new();
    assert(open@ =~= Seq::<RoomTerrain>::empty());
    assert(is_base_scenario(index, s));
    render_calibration_replay(&s, decision, run, &open, shapes)
}

/// A verdict names what was fought, how it ended and when; one that could not be fielded says
/// so instead.
pub proof fn a_verdict_tells_the_end(
    decision: Seq<char>,
    e: Engagement,
    attacker: PlayerId,
    other: PlayerId,
)
    requires
        other != attacker,
    ensures
        e.stop is ObjectivesComplete ==> {
            &&& calibration_words(decision, Some(e)) == decision + " → "@ + "BREACHED"@ + " @ t"@
                + decimal(e.ticks as nat)
            &&& managed_words(Some(e)) == "managed ranged assault"@ + " → "@
                + "objective destroyed"@ + " @ t"@ + decimal(e.ticks as nat)
            &&& match_outcome(Some(e), attacker) == "objective destroyed"@ + " @ t"@ + decimal(
                e.ticks as nat,
            )
        },
        e.stop is Timeout ==> {
            &&& calibration_words(decision, Some(e)) == decision + " → "@ + "held (timed out)"@
                + " @ t"@ + decimal(e.ticks as nat)
            &&& match_words(Some(e), attacker) == "self-play (both sides managed)"@ + " → "@
                + "timed out"@ + " @ t"@ + decimal(e.ticks as nat)
        },
        e.stop == StopReason::SideWiped(attacker) ==> match_words(Some(e), attacker)
            == "self-play (both sides managed)"@ + " → "@ + "attacker wiped"@ + " @ t"@ + decimal(
            e.ticks as nat,
        ),
        e.stop == StopReason::SideWiped(other) ==> match_words(Some(e), attacker)
            == "self-play (both sides managed)"@ + " → "@ + "defender wiped"@ + " @ t"@ + decimal(
            e.ticks as nat,
        ),
        calibration_words(decision, None) == decision + " — could not place on the bed"@,
        managed_words(None) == "managed assault — could not field at the entry"@,
        match_words(None, attacker) == "self-play — could not field the attacker"@,
        match_outcome(None, attacker) == "could not field"@,
{
}

/// A run that could not be fielded shows no frames, and every other shows all of its own.
pub proof fn a_run_shows_its_frames(run: RecordedRun)
    ensures
        run.end is None ==> shown_frames(run).len() == 0,
        run.end is Some ==> shown_frames(run) == run.recording.frames@,
{
}

/// A replay is titled by its scenario and says its verdict.
pub proof fn a_replay_is_titled_by_its_scenario(
    m: ReplayMeta,
    s: Scenario,
    run: RecordedRun,
    terrain: Seq<RoomTerrain>,
    verdict: Seq<char>,
)
    requires
        is_replay_meta(m, s, run, terrain, verdict),
    ensures
        m.title@ == s.label@,
        m.verdict is Some && (m.verdict->0)@ == verdict,
        are_backdrops(m.rooms@, world_tiles(s.world) + frame_tiles(shown_frames(run)), terrain),
{
}

} // verus!
