//! Records shared by the capture loop, the extractor and the user interface.
use vstd::prelude::*;

verus! {

/// A match as stored in the database.
#[derive(Clone, Debug)]
pub struct Match {
    pub id: String,
    pub played_at: String,
    /// "Xマッチ", "バンカラマッチ(チャレンジ)", "ナワバリバトル", ...
    pub mode: Option<String>,
    pub rule: Option<String>,
    pub stage: Option<String>,
    pub weapon: Option<String>,
    /// "win", "lose", "draw" or "in_progress".
    pub result: String,
    pub kill_count: Option<i64>,
    pub assist_count: Option<i64>,
    pub death_count: Option<i64>,
    pub special_count: Option<i64>,
    pub paint_count: Option<i64>,
    /// X power after the match, as the decimal text read on screen.
    pub xp_after: Option<String>,
    pub gold_award_count: Option<i64>,
    /// A JSON array of tags.
    pub tags: Option<String>,
    pub note: Option<String>,
    pub created_at: Option<String>,
    pub updated_at: Option<String>,
}

/// What was read from one result screen.
#[derive(Clone, Debug)]
pub struct ExtractedMatchData {
    pub result: String,
    pub mode: Option<String>,
    pub kill_count: Option<i64>,
    pub death_count: Option<i64>,
    pub special_count: Option<i64>,
    pub paint_count: Option<i64>,
    /// X power after the match, as the decimal text read on screen.
    pub xp_after: Option<String>,
    pub rule: Option<String>,
    pub stage: Option<String>,
    pub gold_award_count: Option<i64>,
}

/// OCR debugging: what was read in one region.
#[derive(Clone, Debug)]
pub struct OcrDebugPayload {
    pub region: String,
    pub raw_text: String,
    pub parsed_value: Option<String>,
}

/// A capturable window.
#[derive(Clone, Debug)]
pub struct WindowInfo {
    pub hwnd: u64,
    pub title: String,
}

/// Result of an OCR test on an image file.
#[derive(Clone, Debug)]
pub struct OcrTestResult {
    pub raw_text: String,
    pub lines: Vec<String>,
}

/// OCR debugging: the raw text of one field, its normalised value and the
/// crop it was read from (a base64 PNG).
#[derive(Clone, Debug)]
pub struct OcrDebugField {
    pub raw: String,
    pub normalized: Option<String>,
    pub crop_image_base64: Option<String>,
}

/// OCR debugging of every field of a result screen.
#[derive(Clone, Debug)]
pub struct OcrDebugResult {
    pub rule: OcrDebugField,
    pub stage: OcrDebugField,
    pub mode: OcrDebugField,
    pub kill: OcrDebugField,
    pub death: OcrDebugField,
    pub special: OcrDebugField,
    /// Centre height of the player's arrow (millionths of the frame height).
    pub arrow_y: Option<u32>,
}


/// The verdict of the one-frame diagnosis.
#[derive(Clone, Copy, PartialEq, Eq, Structural, Debug)]
pub enum DetectionSummary {
    /// Phase 1: the battle start is seen (by the dark scroll, or by OCR).
    BattleStart { by_dark_scroll: bool },
    /// Phase 2: too few grey player rows for a result screen.
    NotResultScreen { win_grey: u32, lose_grey: u32 },
    /// Phase 2: a result screen with the arrow on the WIN side.
    Win { win_grey: u32, lose_grey: u32, win_px: u32, centroid_y: u32 },
    /// Phase 2: a result screen with the arrow on the LOSE side.
    Lose { win_grey: u32, lose_grey: u32, lose_px: u32, centroid_y: u32 },
    /// Phase 2: a result screen without enough yellow arrow pixels.
    NotDetected { win_grey: u32, lose_grey: u32, win_px: u32, lose_px: u32 },
}

/// The one-frame diagnosis of both detector phases.
#[derive(Clone, Debug)]
pub struct CaptureDebugResult {
    pub frame_w: u32,
    pub frame_h: u32,
    pub battle_start_text: String,
    pub battle_start_found: bool,
    pub dark_scroll_found: bool,
    pub win_grey_rows: u32,
    pub lose_grey_rows: u32,
    pub rule_ocr_text: String,
    pub rule_normalized: Option<String>,
    pub stage_ocr_text: String,
    pub stage_normalized: Option<String>,
    pub win_roi_text: String,
    pub win_text_found: bool,
    pub yellow_win_px: u32,
    pub yellow_lose_px: u32,
    /// Mean height of the yellow arrow pixels (millionths of the frame height).
    pub centroid_y: u32,
    pub y_spread: u32,
    pub detection_summary: DetectionSummary,
}

/// Which group of the statistics strip a detection was put in.
#[derive(Clone, Copy, PartialEq, Eq, Structural, Debug)]
pub enum CascadeGroup {
    Paint,
    Kill,
    Death,
    Special,
    AnchorKill,
    AnchorDeath,
    AnchorSpecial,
    Ignored,
}

/// Cascade debugging: one detection of the statistics strip.
#[derive(Clone, Debug)]
pub struct CascadeDebugDetection {
    pub class_name: String,
    /// Confidence (millionths).
    pub confidence: u32,
    /// Horizontal centre (millionths of the strip width, rounded down).
    pub x_center: u32,
    pub group: CascadeGroup,
}

/// Cascade debugging: the strip crop, its detections with their groups,
/// the icons found and the statistics read.
#[derive(Clone, Debug)]
pub struct CascadeDebugResult {
    pub frame_w: u32,
    pub frame_h: u32,
    pub stats_model_loaded: bool,
    pub arrow_found: bool,
    pub crop_x: u32,
    pub crop_y: u32,
    pub crop_w: u32,
    pub crop_h: u32,
    pub crop_image_base64: Option<String>,
    pub detections: Vec<CascadeDebugDetection>,
    pub kill_anchor_x: Option<u32>,
    pub death_anchor_x: Option<u32>,
    pub special_anchor_x: Option<u32>,
    pub paint: Option<i64>,
    pub kill: Option<i64>,
    pub death: Option<i64>,
    pub special: Option<i64>,
    pub error: Option<String>,
}
} // verus!
