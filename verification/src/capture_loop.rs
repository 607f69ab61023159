//! Decisions of the capture loop on each frame: a battle start opens an
//! in-progress record; a result screen seen during a battle names the
//! battle and its outcome for extraction.
use vstd::prelude::*;
use crate::db::{in_progress_record, new_in_progress_match};
use crate::detection::{best_detection, best_index, class_id_of, BBox, Detection, YoloClass};
use crate::detector::{pixel_result_check, pixel_verdict, scannable, Outcome};
use crate::extractor::{arrow_center_spec, arrow_center_y};
use crate::frame::CapturedFrame;
use crate::geometry::{scale, scale_spec};
use crate::pixels::PANEL_BOUNDARY_Y;
use crate::screen_state::{battle_start_accepted, in_game_id, ScreenState, ScreenStateMachine};
use crate::types::Match;

verus! {

/// Confidence a battle-start detection needs (millionths).
pub const BATTLE_START_MIN_CONF: u32 = 600_000;
/// Confidence of a WIN or LOSE banner that marks a result screen.
pub const BANNER_MIN_CONF: u32 = 300_000;
/// Confidence of the player's arrow that marks a result screen.
pub const ARROW_MIN_CONF: u32 = 400_000;
/// Confidence of a DRAW banner that decides a draw.
pub const DRAW_MIN_CONF: u32 = 550_000;

/// Confidence of the best detection of class `c`, 0 without one.
pub open spec fn best_conf(s: Seq<Detection>, c: YoloClass) -> int {
    match best_index(s, class_id_of(c) as int) {
        Some(i) => s[i].confidence as int,
        None => 0,
    }
}

/// The frame shows the battle-start banner with enough confidence.
pub open spec fn battle_start_seen(s: Seq<Detection>) -> bool {
    best_index(s, class_id_of(YoloClass::BattleStart) as int) is Some
        && best_conf(s, YoloClass::BattleStart) >= BATTLE_START_MIN_CONF
}

/// The pixel tests' outcome of a frame.
pub open spec fn pixel_outcome(f: CapturedFrame) -> Option<Outcome> {
    match pixel_verdict(f) {
        Some((o, _)) => Some(o),
        None => None,
    }
}

/// The outcome a frame shows: a draw when the DRAW banner is confident
/// enough; on a result screen (a WIN or LOSE banner, or the player's
/// arrow) the side of the arrow's centre (WIN above the panel boundary),
/// or the pixel tests without an arrow; elsewhere the pixel tests.
pub open spec fn frame_outcome_spec(s: Seq<Detection>, f: CapturedFrame) -> Option<Outcome> {
    if best_conf(s, YoloClass::Draw) >= DRAW_MIN_CONF {
        Some(Outcome::Draw)
    } else if best_conf(s, YoloClass::Win) >= BANNER_MIN_CONF || best_conf(s, YoloClass::Lose) >= BANNER_MIN_CONF
        || best_conf(s, YoloClass::MyArrow) >= ARROW_MIN_CONF {
        match arrow_center_spec(s) {
            Some(y) => if y < PANEL_BOUNDARY_Y { Some(Outcome::Win) } else { Some(Outcome::Lose) },
            None => pixel_outcome(f),
        }
    } else {
        pixel_outcome(f)
    }
}

fn best_confidence(detections: &[Detection], class: YoloClass) -> (r: u32)
    ensures
        r == best_conf(detections@, class),
{
    match best_detection(detections, class) {
        Some(d) => d.confidence,
        None => 0,
    }
}

/// Whether the frame shows the battle-start banner.
pub fn is_battle_start(detections: &[Detection]) -> (r: bool)
    ensures
        r == battle_start_seen(detections@),
{
    match best_detection(detections, YoloClass::BattleStart) {
        Some(d) => d.confidence >= BATTLE_START_MIN_CONF,
        None => false,
    }
}

/// The outcome a frame shows (see `frame_outcome_spec`).
pub fn frame_outcome(detections: &[Detection], frame: &CapturedFrame) -> (r: Option<Outcome>)
    requires
        scannable(*frame),
    ensures
        r == frame_outcome_spec(detections@, *frame),
{
    if best_confidence(detections, YoloClass::Draw) >= DRAW_MIN_CONF {
        return Some(Outcome::Draw);
    }
    let is_result_screen = best_confidence(detections, YoloClass::Win) >= BANNER_MIN_CONF
        || best_confidence(detections, YoloClass::Lose) >= BANNER_MIN_CONF
        || best_confidence(detections, YoloClass::MyArrow) >= ARROW_MIN_CONF;
    if is_result_screen {
        match arrow_center_y(detections) {
            Some(y) => if y < PANEL_BOUNDARY_Y { Some(Outcome::Win) } else { Some(Outcome::Lose) },
            None => pixel_result_check(frame),
        }
    } else {
        pixel_result_check(frame)
    }
}

/// What one frame leads the capture loop to do.
pub struct FrameEvents {
    /// A battle start was accepted: the in-progress record to announce.
    pub started: Option<Match>,
    /// A result screen was seen during a battle: the battle's id and the
    /// outcome, to extract the result from.
    pub result: Option<(String, Outcome)>,
}

/// The loop's decisions on one frame at time `now`: a battle start seen
/// opens a new in-progress record when the machine accepts it; then an
/// outcome seen while a battle is under way is reported with the battle's
/// id (the machine stays in the battle until its timeout).
pub fn process_frame_at(
    machine: &mut ScreenStateMachine,
    detections: &[Detection],
    frame: &CapturedFrame,
    now: u64,
) -> (ev: FrameEvents)
    requires
        scannable(*frame),
    ensures
        ev.started is Some <==> battle_start_seen(detections@) && battle_start_accepted(old(machine)@, now),
        match ev.started {
            Some(m) => {
                &&& in_progress_record(m)
                &&& final(machine)@ matches ScreenState::InGame { match_id, started_at } && match_id@ == m.id@
                    && started_at == now
            },
            None => final(machine)@ == old(machine)@,
        },
        match (frame_outcome_spec(detections@, *frame), in_game_id(final(machine)@)) {
            (Some(o), Some(id)) => ev.result matches Some((s, r)) && s@ == id && r == o,
            _ => ev.result is None,
        },
        final(machine).latest_reading() == old(machine).latest_reading(),
{
    let mut started: Option<Match> = None;
    if is_battle_start(detections) {
        let m = new_in_progress_match();
        let id = m.id.clone();
        if machine.on_battle_started_at(id, now) {
            started = Some(m);
        }
    }
    let result = match frame_outcome(detections, frame) {
        Some(o) => match machine.on_result_detected() {
            Some(id) => Some((id, o)),
            None => None,
        },
        None => None,
    };
    FrameEvents { started, result }
}

/// The loop's decisions on one frame now: the machine's clock is read
/// and the frame is judged at that reading (see `process_frame_at`).
pub fn process_frame(machine: &mut ScreenStateMachine, detections: &[Detection], frame: &CapturedFrame) -> (ev:
    FrameEvents)
    requires
        scannable(*frame),
    ensures
        final(machine).latest_reading() >= old(machine).latest_reading(),
        ev.started is Some <==> battle_start_seen(detections@) && battle_start_accepted(
            old(machine)@,
            final(machine).latest_reading(),
        ),
        battle_start_seen(detections@) && (old(machine)@ is Idle || old(machine)@ is WaitingForBattle)
            ==> ev.started is Some,
        match ev.started {
            Some(m) => {
                &&& in_progress_record(m)
                &&& final(machine)@ matches ScreenState::InGame { match_id, started_at } && match_id@ == m.id@
                    && started_at == final(machine).latest_reading()
            },
            None => final(machine)@ == old(machine)@,
        },
        match (frame_outcome_spec(detections@, *frame), in_game_id(final(machine)@)) {
            (Some(o), Some(id)) => ev.result matches Some((s, r)) && s@ == id && r == o,
            _ => ev.result is None,
        },
{
    let now = machine.now_millis();
    process_frame_at(machine, detections, frame, now)
}

// ---------------------------------------------------------------------------
// The statistics strip
// ---------------------------------------------------------------------------

/// Left edge of the statistics strip (millionths of the frame width).
pub const STATS_X_START: u32 = 450_000;
/// Right edge of the statistics strip.
pub const STATS_X_END: u32 = 860_000;
/// Smallest half-height of the strip, in pixels.
pub const CROP_HALF_H_MIN: u32 = 15;

/// `v` saturated at `u32::MAX` (a float-to-integer cast's behaviour).
pub open spec fn sat32(v: int) -> int {
    if v > u32::MAX as int { u32::MAX as int } else { v }
}

/// The pixel rectangle `(x, y, w, h)` of the statistics strip of the
/// player's row in a frame of `frame_w` x `frame_h`: between 45% and 86% of
/// the width; centred on the arrow's centre, with half-height 0.6 times the
/// arrow's height in pixels and at least 15 pixels, clipped to the frame.
pub open spec fn stats_crop_spec(arrow: BBox, frame_w: u32, frame_h: u32) -> (u32, u32, u32, u32) {
    let y_center = sat32((arrow.y1 as int + arrow.y2 as int) * frame_h as int / 2_000_000);
    let arrow_h = if arrow.y2 >= arrow.y1 { (arrow.y2 - arrow.y1) as int } else { 0 };
    let half0 = sat32(arrow_h * frame_h as int * 6 / 10_000_000);
    let half = if half0 >= CROP_HALF_H_MIN as int { half0 } else { CROP_HALF_H_MIN as int };
    let y = if y_center >= half { y_center - half } else { 0 };
    let room = if frame_h as int >= y { frame_h as int - y } else { 0 };
    let h = if 2 * half <= room { 2 * half } else { room };
    let x = scale_spec(STATS_X_START as int, frame_w as int);
    let right0 = scale_spec(STATS_X_END as int, frame_w as int);
    let right = if right0 <= frame_w as int { right0 } else { frame_w as int };
    let w = if right >= x { right - x } else { 0 };
    (x as u32, y as u32, w as u32, h as u32)
}

fn sat32_exec(v: u128) -> (r: u64)
    ensures
        r == sat32(v as int),
{
    if v > 0xffff_ffff { 0xffff_ffff } else { v as u64 }
}

/// The statistics strip of the player's row (see `stats_crop_spec`).
pub fn stats_crop_rect(arrow: &BBox, frame_w: u32, frame_h: u32) -> (r: (u32, u32, u32, u32))
    ensures
        r == stats_crop_spec(*arrow, frame_w, frame_h),
{
    proof {
        assert((arrow.y1 as int + arrow.y2 as int) * frame_h as int <= 2 * 0x1_0000_0000 * 0x1_0000_0000)
            by (nonlinear_arith)
            requires
                arrow.y1 <= u32::MAX,
                arrow.y2 <= u32::MAX,
                frame_h <= u32::MAX,
        ;
    }
    let y_center: u64 = sat32_exec((arrow.y1 as u128 + arrow.y2 as u128) * frame_h as u128 / 2_000_000);
    let arrow_h: u128 = if arrow.y2 >= arrow.y1 { (arrow.y2 - arrow.y1) as u128 } else { 0 };
    proof {
        assert(arrow_h * frame_h as int * 6 <= 0x1_0000_0000 * 0x1_0000_0000 * 6) by (nonlinear_arith)
            requires
                arrow_h <= u32::MAX,
                frame_h <= u32::MAX,
        ;
    }
    let half0: u64 = sat32_exec(arrow_h * frame_h as u128 * 6 / 10_000_000);
    let half: u64 = if half0 >= CROP_HALF_H_MIN as u64 { half0 } else { CROP_HALF_H_MIN as u64 };
    let y: u64 = if y_center >= half { y_center - half } else { 0 };
    let room: u64 = if frame_h as u64 >= y { frame_h as u64 - y } else { 0 };
    let h: u64 = if 2 * half <= room { 2 * half } else { room };
    let x = scale(STATS_X_START, frame_w);
    let right0 = scale(STATS_X_END, frame_w);
    let right = if right0 <= frame_w { right0 } else { frame_w };
    let w = if right >= x { right - x } else { 0 };
    (x, y as u32, w, h as u32)
}

} // verus!
