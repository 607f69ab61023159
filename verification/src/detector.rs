//! Two-phase result detection on raw frames: the battle-start banner, then
//! the result screen, told apart by pixel tests.
use vstd::prelude::*;
use crate::frame::CapturedFrame;
use crate::pixels::{
    count_grey_rows, count_yellow_arrow_pixels, grey_rows_spec, yellow_arrow_spec,
    MIN_YELLOW_PIXELS, RESULT_GREY_ROWS_MIN_PER_HALF,
};
use crate::extractor::{
    extract_rule_raw, extract_stage_raw, normalize_rule, normalize_rule_spec, normalize_stage,
    normalize_stage_spec, opt_view,
};
use crate::pixels::{dark_scroll_spec, detect_dark_scroll};
use crate::text::{
    chars_of, contains_chars, contains_seq, is_white_space, remove_white_space, string_of, strip_white_space,
    to_upper, trim_spec, uppercase,
};
use crate::types::{CaptureDebugResult, DetectionSummary};

verus! {

/// Outcome of a finished match.
#[derive(Clone, Copy, PartialEq, Eq, Structural, Debug)]
pub enum Outcome {
    Win,
    Lose,
    Draw,
}

impl Outcome {
    /// The record value of the outcome: `"win"`, `"lose"` or `"draw"`.
    pub fn as_str(&self) -> (s: &'static str)
        ensures
            s@ == outcome_text(*self),
    {
        match self {
            Outcome::Win => "win",
            Outcome::Lose => "lose",
            Outcome::Draw => "draw",
        }
    }
}

/// The record value of an outcome.
pub open spec fn outcome_text(o: Outcome) -> Seq<char> {
    match o {
        Outcome::Win => "win"@,
        Outcome::Lose => "lose"@,
        Outcome::Draw => "draw"@,
    }
}

/// What one frame showed to the two-phase detector.
#[derive(Clone, Copy, PartialEq, Eq, Structural, Debug)]
pub enum DetectionResult {
    /// Phase 1: the battle-start banner.
    BattleStarted,
    /// Phase 2: a result screen with the player's arrow on the WIN side.
    Win { arrow_y_ratio: u32 },
    /// Phase 2: a result screen with the player's arrow on the LOSE side.
    Lose { arrow_y_ratio: u32 },
    NotDetected,
}

impl DetectionResult {
    /// `"win"` or `"lose"` for a result, `None` otherwise.
    pub fn result_str(&self) -> (r: Option<&'static str>)
        ensures
            match *self {
                DetectionResult::Win { .. } => r matches Some(s) && s@ == "win"@,
                DetectionResult::Lose { .. } => r matches Some(s) && s@ == "lose"@,
                _ => r is None,
            },
    {
        match self {
            DetectionResult::BattleStarted => None,
            DetectionResult::Win { .. } => Some("win"),
            DetectionResult::Lose { .. } => Some("lose"),
            DetectionResult::NotDetected => None,
        }
    }

    /// Height of the player's arrow (millionths of the frame height) for a
    /// result, `None` otherwise.
    pub fn arrow_y_ratio(&self) -> (r: Option<u32>)
        ensures
            match *self {
                DetectionResult::Win { arrow_y_ratio } => r == Some(arrow_y_ratio),
                DetectionResult::Lose { arrow_y_ratio } => r == Some(arrow_y_ratio),
                _ => r is None,
            },
    {
        match self {
            DetectionResult::Win { arrow_y_ratio } => Some(*arrow_y_ratio),
            DetectionResult::Lose { arrow_y_ratio } => Some(*arrow_y_ratio),
            _ => None,
        }
    }
}

/// The battle-start banner reads in the OCR text `t` (white space removed):
/// it holds "バトル", "開始" or "始します".
pub open spec fn battle_start_text(t: Seq<char>) -> bool {
    let c = strip_white_space(t);
    contains_seq(c, "バトル"@) || contains_seq(c, "開始"@) || contains_seq(c, "始します"@)
}

/// Whether the OCR text of the battle-start area shows the banner.
pub fn is_battle_start_text(text: &str) -> (r: bool)
    ensures
        r == battle_start_text(text@),
{
    let compact = remove_white_space(&chars_of(text));
    contains_chars(&compact, &chars_of("バトル")) || contains_chars(&compact, &chars_of("開始"))
        || contains_chars(&compact, &chars_of("始します"))
}

/// The pixel verdict on a frame: `None` unless both halves show at least
/// two grey player rows and the arrow band holds at least 100 yellow
/// pixels; then WIN when the WIN side has at least as many yellow pixels
/// as the LOSE side, with the arrow's mean height.
pub open spec fn pixel_verdict(f: CapturedFrame) -> Option<(Outcome, u32)> {
    let (wg, lg) = grey_rows_spec(f);
    let (wp, lp, cy, _sp) = yellow_arrow_spec(f);
    if wg < RESULT_GREY_ROWS_MIN_PER_HALF as int || lg < RESULT_GREY_ROWS_MIN_PER_HALF as int {
        None
    } else if wp < MIN_YELLOW_PIXELS as int && lp < MIN_YELLOW_PIXELS as int {
        None
    } else if wp >= lp {
        Some((Outcome::Win, cy as u32))
    } else {
        Some((Outcome::Lose, cy as u32))
    }
}

/// Frames that the pixel tests can scan: at most `u32::MAX` pixels.
pub open spec fn scannable(f: CapturedFrame) -> bool {
    f.width as int * f.height as int <= u32::MAX as int
}

/// The result screen read from pixels alone: grey player rows on both
/// halves, then the yellow arrow's side.
pub fn pixel_result(frame: &CapturedFrame) -> (r: Option<(Outcome, u32)>)
    requires
        scannable(*frame),
    ensures
        r == pixel_verdict(*frame),
{
    let (win_grey, lose_grey) = count_grey_rows(frame);
    if win_grey < RESULT_GREY_ROWS_MIN_PER_HALF || lose_grey < RESULT_GREY_ROWS_MIN_PER_HALF {
        return None;
    }
    let (win_px, lose_px, centroid_y, _) = count_yellow_arrow_pixels(frame);
    if win_px < MIN_YELLOW_PIXELS && lose_px < MIN_YELLOW_PIXELS {
        return None;
    }
    if win_px >= lose_px {
        Some((Outcome::Win, centroid_y))
    } else {
        Some((Outcome::Lose, centroid_y))
    }
}

/// The outcome read from pixels alone (the fallback when the detection
/// model saw no banner and no arrow).
pub fn pixel_result_check(frame: &CapturedFrame) -> (r: Option<Outcome>)
    requires
        scannable(*frame),
    ensures
        r == (match pixel_verdict(*frame) {
            Some((o, _)) => Some(o),
            None => None,
        }),
{
    match pixel_result(frame) {
        Some((o, _)) => Some(o),
        None => None,
    }
}

/// Phase of the two-phase detector.
#[derive(Clone, Copy, PartialEq, Eq, Structural, Debug)]
pub enum DetectorPhase {
    /// Waiting for the battle-start banner.
    WaitingForBattle,
    /// In a battle, waiting for the result screen.
    InGame,
}

/// The two-phase detector: battle start, then the result screen.
pub struct ResultDetector {
    pub phase: DetectorPhase,
}

/// One step of the two-phase detector: the next phase and what was seen,
/// given the OCR text of the battle-start area (read in phase 1 only).
pub open spec fn detect_step(phase: DetectorPhase, f: CapturedFrame, battle_text: Seq<char>) -> (
    DetectorPhase,
    DetectionResult,
) {
    match phase {
        DetectorPhase::WaitingForBattle => if battle_start_text(battle_text) {
            (DetectorPhase::InGame, DetectionResult::BattleStarted)
        } else {
            (DetectorPhase::WaitingForBattle, DetectionResult::NotDetected)
        },
        DetectorPhase::InGame => match pixel_verdict(f) {
            None => (DetectorPhase::InGame, DetectionResult::NotDetected),
            Some((Outcome::Win, y)) => (DetectorPhase::WaitingForBattle, DetectionResult::Win { arrow_y_ratio: y }),
            Some((_, y)) => (DetectorPhase::WaitingForBattle, DetectionResult::Lose { arrow_y_ratio: y }),
        },
    }
}

impl ResultDetector {
    /// A detector waiting for the battle-start banner.
    pub fn new() -> (d: Self)
        ensures
            d.phase == DetectorPhase::WaitingForBattle,
    {
        ResultDetector { phase: DetectorPhase::WaitingForBattle }
    }

    /// Waiting for the battle-start banner.
    pub fn is_waiting(&self) -> (r: bool)
        ensures
            r == (self.phase == DetectorPhase::WaitingForBattle),
    {
        self.phase == DetectorPhase::WaitingForBattle
    }

    /// In a battle, waiting for the result screen.
    pub fn is_in_game(&self) -> (r: bool)
        ensures
            r == (self.phase == DetectorPhase::InGame),
    {
        self.phase == DetectorPhase::InGame
    }

    /// Back to waiting for the battle-start banner.
    pub fn reset_to_waiting(&mut self)
        ensures
            final(self).phase == DetectorPhase::WaitingForBattle,
    {
        self.phase = DetectorPhase::WaitingForBattle;
    }

    /// Examines one frame.  In phase 1 the OCR text of the battle-start
    /// area decides (white space is ignored); in phase 2 the pixel tests
    /// decide and `battle_text` is not read.
    pub fn detect(&mut self, frame: &CapturedFrame, battle_text: &str) -> (r: DetectionResult)
        requires
            scannable(*frame),
        ensures
            (final(self).phase, r) == detect_step(old(self).phase, *frame, battle_text@),
    {
        match self.phase {
            DetectorPhase::WaitingForBattle => {
                if is_battle_start_text(battle_text) {
                    self.phase = DetectorPhase::InGame;
                    DetectionResult::BattleStarted
                } else {
                    DetectionResult::NotDetected
                }
            },
            DetectorPhase::InGame => {
                match pixel_result(frame) {
                    None => DetectionResult::NotDetected,
                    Some((o, y)) => {
                        self.phase = DetectorPhase::WaitingForBattle;
                        match o {
                            Outcome::Win => DetectionResult::Win { arrow_y_ratio: y },
                            _ => DetectionResult::Lose { arrow_y_ratio: y },
                        }
                    },
                }
            },
        }
    }
}


// ---------------------------------------------------------------------------
// One-frame diagnosis
// ---------------------------------------------------------------------------

/// How an OCR read is shown in the diagnosis: its text, or `OCR_ERROR: `
/// and the error.
pub open spec fn shown_read(read: Result<Seq<char>, Seq<char>>) -> Seq<char> {
    match read {
        Ok(t) => t,
        Err(e) => "OCR_ERROR: "@ + e,
    }
}

/// The view of an OCR read.
pub open spec fn read_view(read: Result<String, String>) -> Result<Seq<char>, Seq<char>> {
    match read {
        Ok(t) => Ok(t@),
        Err(e) => Err(e@),
    }
}

fn show_read(read: Result<String, String>) -> (r: String)
    ensures
        r@ == shown_read(read_view(read)),
{
    match read {
        Ok(t) => t,
        Err(e) => {
            let mut v = chars_of("OCR_ERROR: ");
            let ev = chars_of(e.as_str());
            let ghost head = v@;
            let mut i: usize = 0;
            while i < ev.len()
                invariant
                    i <= ev.len(),
                    ev@ == e@,
                    v@ == head + ev@.subrange(0, i as int),
                decreases ev.len() - i,
            {
                v.push(ev[i]);
                i = i + 1;
                proof {
                    assert(ev@.subrange(0, i as int) =~= ev@.subrange(0, i - 1).push(ev@[i - 1]));
                }
            }
            proof {
                assert(ev@.subrange(0, ev.len() as int) =~= ev@);
            }
            string_of(&v)
        },
    }
}

/// The verdict of the diagnosis: the battle start when the dark scroll or
/// the banner text is seen; otherwise, on a result screen (two grey rows
/// on each half), WIN or LOSE by which side has 100 yellow pixels (WIN
/// first); otherwise what is missing.
pub open spec fn summary_spec(
    dark: bool,
    banner: bool,
    win_grey: u32,
    lose_grey: u32,
    win_px: u32,
    lose_px: u32,
    centroid_y: u32,
) -> DetectionSummary {
    if dark || banner {
        DetectionSummary::BattleStart { by_dark_scroll: dark }
    } else if win_grey < RESULT_GREY_ROWS_MIN_PER_HALF || lose_grey < RESULT_GREY_ROWS_MIN_PER_HALF {
        DetectionSummary::NotResultScreen { win_grey, lose_grey }
    } else if win_px >= MIN_YELLOW_PIXELS {
        DetectionSummary::Win { win_grey, lose_grey, win_px, centroid_y }
    } else if lose_px >= MIN_YELLOW_PIXELS {
        DetectionSummary::Lose { win_grey, lose_grey, lose_px, centroid_y }
    } else {
        DetectionSummary::NotDetected { win_grey, lose_grey, win_px, lose_px }
    }
}

/// Diagnoses one frame for both phases without changing any state, from
/// the OCR reads of the battle-start area and the WIN banner (text or
/// error) and of the rule and stage regions (`None` where OCR failed).
pub fn debug_detect_frame(
    frame: &CapturedFrame,
    battle_start_read: Result<String, String>,
    win_read: Result<String, String>,
    rule_read: Option<&str>,
    stage_read: Option<&str>,
) -> (r: CaptureDebugResult)
    requires
        scannable(*frame),
    ensures
        r.frame_w == frame.width && r.frame_h == frame.height,
        r.dark_scroll_found == dark_scroll_spec(*frame),
        r.battle_start_text@ == shown_read(read_view(battle_start_read)),
        r.battle_start_found == (dark_scroll_spec(*frame) || battle_start_text(r.battle_start_text@)),
        r.win_roi_text@ == shown_read(match win_read {
            Ok(t) => Ok(uppercase(t@)),
            Err(e) => Err(e@),
        }),
        r.win_text_found == contains_seq(r.win_roi_text@, "WIN"@),
        r.win_grey_rows == grey_rows_spec(*frame).0,
        r.lose_grey_rows == grey_rows_spec(*frame).1,
        r.yellow_win_px == yellow_arrow_spec(*frame).0,
        r.yellow_lose_px == yellow_arrow_spec(*frame).1,
        r.centroid_y == yellow_arrow_spec(*frame).2,
        r.y_spread == yellow_arrow_spec(*frame).3,
        r.rule_ocr_text@ == match rule_read {
            Some(t) => trim_spec(t@),
            None => Seq::<char>::empty(),
        },
        r.stage_ocr_text@ == match stage_read {
            Some(t) => trim_spec(t@),
            None => Seq::<char>::empty(),
        },
        opt_view(r.rule_normalized) == normalize_rule_spec(r.rule_ocr_text@),
        opt_view(r.stage_normalized) == normalize_stage_spec(r.stage_ocr_text@),
        r.detection_summary == summary_spec(
            r.dark_scroll_found,
            battle_start_text(r.battle_start_text@),
            r.win_grey_rows,
            r.lose_grey_rows,
            r.yellow_win_px,
            r.yellow_lose_px,
            r.centroid_y,
        ),
{
    let dark = detect_dark_scroll(frame);
    let battle_start_text = show_read(battle_start_read);
    let banner = is_battle_start_text(battle_start_text.as_str());
    let win_shown = match win_read {
        Ok(t) => Ok(string_of(&to_upper(t.as_str()))),
        Err(e) => Err(e),
    };
    let win_roi_text = show_read(win_shown);
    let win_text_found = contains_chars(&chars_of(win_roi_text.as_str()), &chars_of("WIN"));
    let (win_grey, lose_grey) = count_grey_rows(frame);
    let (win_px, lose_px, centroid_y, y_spread) = count_yellow_arrow_pixels(frame);
    let summary = if dark || banner {
        DetectionSummary::BattleStart { by_dark_scroll: dark }
    } else if win_grey < RESULT_GREY_ROWS_MIN_PER_HALF || lose_grey < RESULT_GREY_ROWS_MIN_PER_HALF {
        DetectionSummary::NotResultScreen { win_grey, lose_grey }
    } else if win_px >= MIN_YELLOW_PIXELS {
        DetectionSummary::Win { win_grey, lose_grey, win_px, centroid_y }
    } else if lose_px >= MIN_YELLOW_PIXELS {
        DetectionSummary::Lose { win_grey, lose_grey, lose_px, centroid_y }
    } else {
        DetectionSummary::NotDetected { win_grey, lose_grey, win_px, lose_px }
    };
    let rule_ocr_text = extract_rule_raw(rule_read);
    let stage_ocr_text = extract_stage_raw(stage_read);
    let rule_normalized = normalize_rule(rule_ocr_text.as_str());
    let stage_normalized = normalize_stage(stage_ocr_text.as_str());
    proof {
        assert(opt_view(rule_normalized) == normalize_rule_spec(rule_ocr_text@));
        assert(opt_view(stage_normalized) == normalize_stage_spec(stage_ocr_text@));
    }
    CaptureDebugResult {
        frame_w: frame.width,
        frame_h: frame.height,
        battle_start_text,
        battle_start_found: dark || banner,
        dark_scroll_found: dark,
        win_grey_rows: win_grey,
        lose_grey_rows: lose_grey,
        rule_ocr_text,
        rule_normalized,
        stage_ocr_text,
        stage_normalized,
        win_roi_text,
        win_text_found,
        yellow_win_px: win_px,
        yellow_lose_px: lose_px,
        centroid_y,
        y_spread,
        detection_summary: summary,
    }
}

// ---------------------------------------------------------------------------
// Laws
// ---------------------------------------------------------------------------

/// A result is reported only in a battle: while waiting for the battle
/// start, no frame gives a WIN or LOSE.
pub proof fn law_result_only_in_game(f: CapturedFrame, battle_text: Seq<char>)
    ensures
        detect_step(DetectorPhase::WaitingForBattle, f, battle_text).1 is BattleStarted
            || detect_step(DetectorPhase::WaitingForBattle, f, battle_text).1 is NotDetected,
{
}

/// One result per battle: after a result the detector waits for the next
/// battle start, so the frame after a result never gives another result.
pub proof fn law_one_result_per_battle(
    f1: CapturedFrame,
    t1: Seq<char>,
    f2: CapturedFrame,
    t2: Seq<char>,
)
    requires
        detect_step(DetectorPhase::InGame, f1, t1).1 is Win || detect_step(DetectorPhase::InGame, f1, t1).1 is Lose,
    ensures
        detect_step(DetectorPhase::InGame, f1, t1).0 == DetectorPhase::WaitingForBattle,
        !(detect_step(detect_step(DetectorPhase::InGame, f1, t1).0, f2, t2).1 is Win),
        !(detect_step(detect_step(DetectorPhase::InGame, f1, t1).0, f2, t2).1 is Lose),
{
}

/// Filtering a sequence whose elements all pass keeps it whole.
proof fn lemma_filter_keeps_all(s: Seq<char>)
    requires
        forall|k: int| 0 <= k < s.len() ==> !is_white_space(#[trigger] s[k]),
    ensures
        strip_white_space(s) == s,
    decreases s.len(),
{
    reveal_with_fuel(Seq::filter, 1);
    if s.len() > 0 {
        lemma_filter_keeps_all(s.drop_last());
        assert(s.drop_last().push(s.last()) =~= s);
    }
}

/// The battle-start test ignores white space (OCR puts spaces between
/// characters): a white-space character inserted anywhere changes nothing,
/// the text and its white-space-free form agree, and text whose
/// white-space-free form holds "バトル", "開始" or "始します" is a battle start.
pub proof fn law_battle_start_ignores_white_space(a: Seq<char>, b: Seq<char>, w: char)
    requires
        is_white_space(w),
    ensures
        battle_start_text(a + seq![w] + b) == battle_start_text(a + b),
        battle_start_text(a) == battle_start_text(strip_white_space(a)),
        contains_seq(strip_white_space(a), "バトル"@) ==> battle_start_text(a),
{
    broadcast use vstd::seq_lib::group_filter_ensures;
    let p = |c: char| !is_white_space(c);
    Seq::filter_distributes_over_add(a + seq![w], b, p);
    Seq::filter_distributes_over_add(a, seq![w], p);
    Seq::filter_distributes_over_add(a, b, p);
    reveal_with_fuel(Seq::filter, 2);
    assert(seq![w].drop_last() =~= Seq::<char>::empty());
    assert(strip_white_space(seq![w]) =~= Seq::<char>::empty());
    assert(strip_white_space(a) + Seq::<char>::empty() =~= strip_white_space(a));
    let c = strip_white_space(a);
    assert forall|k: int| 0 <= k < c.len() implies !is_white_space(#[trigger] c[k]) by {
        a.lemma_filter_pred(p, k);
    }
    lemma_filter_keeps_all(c);
}

} // verus!
