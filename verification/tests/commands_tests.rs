use inkgraph::capture::{frame_from_rgba, is_capturable_window, list_capturable_windows, CaptureError};
use inkgraph::cascade::{assign_group, cascade_debug_result};
use inkgraph::commands::{cascade_counts, ocr_test_result, placeholder_windows};
use inkgraph::detection::{BBox, Detection};
use inkgraph::detector::debug_detect_frame;
use inkgraph::frame::CapturedFrame;
use inkgraph::types::{CascadeGroup, DetectionSummary};

fn named(name: &str, x1: u32, x2: u32, conf: u32) -> Detection {
    Detection { bbox: BBox { x1, y1: 0, x2, y2: 10 }, class_id: 0, class_name: name.to_string(), confidence: conf }
}

#[test]
fn ocr_lines_are_trimmed_and_non_blank() {
    let r = ocr_test_result("  ガチエリア \r\n\n X マッチ\n   \nlast".to_string());
    assert_eq!(r.raw_text, "  ガチエリア \r\n\n X マッチ\n   \nlast");
    assert_eq!(r.lines, vec!["ガチエリア".to_string(), "X マッチ".to_string(), "last".to_string()]);
    assert!(ocr_test_result(String::new()).lines.is_empty());
}

#[test]
fn window_filter() {
    assert!(is_capturable_window(true, false, 0, 12, "Nintendo Switch"));
    assert!(!is_capturable_window(false, false, 0, 12, "Nintendo Switch"));
    assert!(!is_capturable_window(true, true, 0, 12, "Nintendo Switch"));
    assert!(!is_capturable_window(true, false, 0x80, 12, "Nintendo Switch"));
    assert!(!is_capturable_window(true, false, 0, 1, "A"));
    assert!(!is_capturable_window(true, false, 0, 3, "   "));
    assert!(matches!(list_capturable_windows(), Err(CaptureError::Unsupported)));
    assert_eq!(CaptureError::Unsupported.message(), "capture is only available on Windows");
    let stub = placeholder_windows();
    assert_eq!(stub.len(), 1);
    assert_eq!(stub[0].hwnd, 0);
    assert_eq!(stub[0].title, "[stub] Non-Windows platform");
}

#[test]
fn frame_from_decoded_rgba() {
    let f = frame_from_rgba(&[255, 0, 0, 255, 0, 128, 64, 200], 2, 1);
    assert_eq!((f.width, f.height), (2, 1));
    assert_eq!(f.bgra, vec![0, 0, 255, 255, 64, 128, 0, 200]);
}

#[test]
fn cascade_counts_need_one_value() {
    assert_eq!(cascade_counts(None, None, None), None);
    assert_eq!(cascade_counts(None, Some(2), None), Some((None, Some(2), None)));
}

#[test]
fn groups_follow_icon_edges() {
    let k = Some(300_000);
    let d = Some(500_000);
    let s = Some(700_000);
    assert_eq!(assign_group(&named("icon_kill", 0, 1, 1), k, d, s), CascadeGroup::AnchorKill);
    assert_eq!(assign_group(&named("icon_death", 0, 1, 1), k, d, s), CascadeGroup::AnchorDeath);
    assert_eq!(assign_group(&named("icon_special", 0, 1, 1), k, d, s), CascadeGroup::AnchorSpecial);
    assert_eq!(assign_group(&named("noise", 0, 1, 1), k, d, s), CascadeGroup::Ignored);
    assert_eq!(assign_group(&named("digit_1", 100_000, 120_000, 1), k, d, s), CascadeGroup::Paint);
    assert_eq!(assign_group(&named("digit_1", 290_000, 310_000, 1), k, d, s), CascadeGroup::Kill);
    assert_eq!(assign_group(&named("digit_1", 600_000, 620_000, 1), k, d, s), CascadeGroup::Death);
    assert_eq!(assign_group(&named("digit_1", 800_000, 820_000, 1), k, d, s), CascadeGroup::Special);
    assert_eq!(assign_group(&named("digit_1", 800_000, 820_000, 1), None, None, None), CascadeGroup::Paint);
}

#[test]
fn cascade_debug_reads_confident_digits() {
    let dets = vec![
        named("digit_1", 100_000, 120_000, 900_000),
        named("icon_kill", 290_000, 310_000, 900_000),
        named("digit_4", 350_000, 370_000, 900_000),
        named("digit_9", 400_000, 420_000, 300_000),
        named("icon_death", 490_000, 510_000, 900_000),
        named("digit_2", 550_000, 570_000, 900_000),
        named("icon_special", 690_000, 710_000, 900_000),
        named("digit_3", 750_000, 770_000, 900_000),
    ];
    let r = cascade_debug_result(1920, 1080, true, (864, 500, 787, 60), None, &dets);
    assert!(r.arrow_found);
    assert_eq!(r.detections.len(), 8);
    assert_eq!(r.detections[3].group, CascadeGroup::Kill);
    assert_eq!(r.detections[0].x_center, 110_000);
    assert_eq!(r.kill_anchor_x, Some(300_000));
    // The low-confidence 9 is left out of the kills.
    assert_eq!((r.paint, r.kill, r.death, r.special), (Some(1), Some(4), Some(2), Some(3)));
    assert_eq!((r.crop_x, r.crop_w), (864, 787));
}

#[test]
fn debug_frame_diagnosis() {
    let f = CapturedFrame { bgra: vec![0u8; 32 * 18 * 4], width: 32, height: 18 };
    let r = debug_detect_frame(&f, Ok("バ ト ル".to_string()), Ok("win!".to_string()), Some(" AREA "), None);
    assert!(r.dark_scroll_found);
    assert!(r.battle_start_found);
    assert_eq!(r.win_roi_text, "WIN!");
    assert!(r.win_text_found);
    assert_eq!(r.rule_ocr_text, "AREA");
    assert_eq!(r.rule_normalized, Some("ガチエリア".to_string()));
    assert_eq!(r.stage_ocr_text, "");
    assert!(matches!(r.detection_summary, DetectionSummary::BattleStart { by_dark_scroll: true }));

    let white = CapturedFrame { bgra: vec![255u8; 32 * 18 * 4], width: 32, height: 18 };
    let r2 = debug_detect_frame(&white, Err("engine".to_string()), Err("x".to_string()), None, None);
    assert_eq!(r2.battle_start_text, "OCR_ERROR: engine");
    assert!(!r2.battle_start_found);
    assert_eq!(r2.win_roi_text, "OCR_ERROR: x");
    assert!(!r2.win_text_found);
    assert!(matches!(r2.detection_summary, DetectionSummary::NotDetected { .. }));
}
