use inkgraph::cascade::stats_class_names;
use inkgraph::detection::{
    best_detection, decode_detections, nms_per_class, result_class_names, AnchorOutput, BBox, Detection, YoloClass,
    DEFAULT_CONF_THRESHOLD, DEFAULT_IOU_THRESHOLD,
};
use inkgraph::detector::{DetectionResult, DetectorPhase, ResultDetector};
use inkgraph::frame::{crop_bgra, CapturedFrame};
use inkgraph::geometry::{scale, Roi};
use inkgraph::pixels::{
    count_grey_rows, count_yellow_arrow_pixels, is_arrow_yellow, win_roi, PANEL_BOUNDARY_Y,
};

#[test]
fn test_crop_bgra_basic() {
    let mut data = vec![0u8; 4 * 4 * 4];
    let idx = ((2 * 4 + 2) * 4) as usize;
    data[idx + 2] = 255;
    data[idx + 3] = 255;
    let crop = crop_bgra(&data, 4, 2, 2, 2, 2);
    assert_eq!(crop.len(), 16);
    assert_eq!(crop[2], 255);
}

#[test]
fn test_roi_to_pixels_1080p() {
    let (x, y, w, h) = win_roi().to_pixels(1920, 1080);
    assert!(x > 800, "WIN ROI x={x}");
    assert!(y > 200, "WIN ROI y={y}");
    assert!(w > 0 && h > 0);
}

#[test]
fn test_panel_boundary_pixels() {
    let y_mid = scale(PANEL_BOUNDARY_Y, 816);
    assert!(y_mid > 480, "boundary y={y_mid} too high");
    assert!(y_mid < 560, "boundary y={y_mid} too low");
}

#[test]
fn test_yellow_pixel_threshold() {
    let (r, g, b) = (230u8, 190u8, 50u8);
    assert!(is_arrow_yellow(r, g, b));
    let (r2, g2, b2) = (255u8, 255u8, 255u8);
    assert!(!is_arrow_yellow(r2, g2, b2));
}

#[test]
fn test_detector_initial_phase() {
    let det = ResultDetector::new();
    assert_eq!(det.phase, DetectorPhase::WaitingForBattle);
}

#[test]
fn test_grey_row_detection_all_white() {
    let w = 1920u32;
    let h = 1080u32;
    let bgra = vec![255u8; (w * h * 4) as usize];
    let frame = CapturedFrame { bgra, width: w, height: h };
    let (win_grey, lose_grey) = count_grey_rows(&frame);
    assert_eq!(win_grey, 4, "all-white: expected 4 win grey rows, got {win_grey}");
    assert_eq!(lose_grey, 4, "all-white: expected 4 lose grey rows, got {lose_grey}");
}

#[test]
fn test_grey_row_detection_all_colored() {
    let w = 1920u32;
    let h = 1080u32;
    let mut bgra = vec![0u8; (w * h * 4) as usize];
    for i in 0..(w * h) as usize {
        bgra[i * 4] = 30;
        bgra[i * 4 + 1] = 200;
        bgra[i * 4 + 2] = 240;
        bgra[i * 4 + 3] = 255;
    }
    let frame = CapturedFrame { bgra, width: w, height: h };
    let (win_grey, lose_grey) = count_grey_rows(&frame);
    assert_eq!(win_grey, 0, "saturated yellow: expected 0 win grey rows");
    assert_eq!(lose_grey, 0, "saturated yellow: expected 0 lose grey rows");
}

#[test]
fn test_grey_row_detection_banner_screen_simulation() {
    let w = 1920u32;
    let h = 1080u32;
    let mut bgra = vec![0u8; (w * h * 4) as usize];
    for py in 0..h {
        for px in 0..w {
            let idx = ((py * w + px) * 4) as usize;
            let y_r = py as f32 / h as f32;
            if y_r < 0.63 {
                bgra[idx] = 20;
                bgra[idx + 1] = 25;
                bgra[idx + 2] = 15;
            } else {
                bgra[idx] = 200;
                bgra[idx + 1] = 205;
                bgra[idx + 2] = 200;
            }
            bgra[idx + 3] = 255;
        }
    }
    let frame = CapturedFrame { bgra, width: w, height: h };
    let (win_grey, lose_grey) = count_grey_rows(&frame);
    assert_eq!(win_grey, 0, "banner screen WIN side should have 0 grey rows");
    assert!(lose_grey >= 2, "banner screen LOSE side may have grey rows: {lose_grey}");
    assert!(
        win_grey < 2 || lose_grey < 2,
        "banner screen should NOT pass both-half threshold (win={win_grey} lose={lose_grey})"
    );
}

#[test]
fn test_count_yellow_arrow_win_area() {
    let w = 100u32;
    let h = 100u32;
    let mut bgra = vec![0u8; (w * h * 4) as usize];
    let px_x = 47u32;
    let px_y = 35u32;
    for dy in 0..5u32 {
        let idx = (((px_y + dy) * w + px_x) * 4) as usize;
        bgra[idx] = 30;
        bgra[idx + 1] = 190;
        bgra[idx + 2] = 230;
        bgra[idx + 3] = 255;
    }
    let frame = CapturedFrame { bgra, width: w, height: h };
    let (win_px, lose_px, centroid_y, _) = count_yellow_arrow_pixels(&frame);
    assert!(win_px >= 5, "expected win yellow pixels, got {win_px}");
    assert_eq!(lose_px, 0);
    assert!(centroid_y > 300_000 && centroid_y < 500_000, "centroid_y={centroid_y}");
}

#[test]
fn test_detection_result_helpers() {
    let started = DetectionResult::BattleStarted;
    let win = DetectionResult::Win { arrow_y_ratio: 440_000 };
    let lose = DetectionResult::Lose { arrow_y_ratio: 720_000 };
    let none = DetectionResult::NotDetected;
    assert_eq!(started.result_str(), None);
    assert_eq!(win.result_str(), Some("win"));
    assert_eq!(lose.result_str(), Some("lose"));
    assert_eq!(none.result_str(), None);
    assert_eq!(win.arrow_y_ratio(), Some(440_000));
    assert_eq!(lose.arrow_y_ratio(), Some(720_000));
    assert!(started.arrow_y_ratio().is_none());
}

#[test]
fn test_bbox_iou_identical() {
    let b = BBox { x1: 100_000, y1: 100_000, x2: 500_000, y2: 500_000 };
    let (n, d) = b.iou(&b);
    assert_eq!(n, d, "IoU of identical bbox should be 1.0");
}

#[test]
fn test_bbox_iou_no_overlap() {
    let a = BBox { x1: 0, y1: 0, x2: 200_000, y2: 200_000 };
    let b = BBox { x1: 800_000, y1: 800_000, x2: 1_000_000, y2: 1_000_000 };
    let (n, _) = a.iou(&b);
    assert_eq!(n, 0, "non-overlapping boxes should have IoU=0");
}

#[test]
fn test_yolo_class_num() {
    assert_eq!(YoloClass::num_classes(), 10);
}

#[test]
fn test_yolo_class_from_id() {
    assert_eq!(YoloClass::from_id(0), Some(YoloClass::BattleStart));
    assert_eq!(YoloClass::from_id(3), Some(YoloClass::Win));
    assert_eq!(YoloClass::from_id(7), Some(YoloClass::MyArrow));
    assert_eq!(YoloClass::from_id(9), Some(YoloClass::StageText));
    assert!(YoloClass::from_id(99).is_none());
}

fn det(class_id: usize, name: &str, conf: u32) -> Detection {
    Detection {
        bbox: BBox { x1: 100_000, y1: 100_000, x2: 500_000, y2: 500_000 },
        class_id,
        class_name: name.to_string(),
        confidence: conf,
    }
}

#[test]
fn test_nms_removes_duplicate() {
    let dets = vec![det(0, "win", 950_000), det(0, "win", 800_000)];
    let kept = nms_per_class(dets, 450_000);
    assert_eq!(kept.len(), 1, "NMS should keep only 1 of 2 identical boxes");
    assert_eq!(kept[0].confidence, 950_000, "should keep higher confidence");
}

#[test]
fn test_nms_keeps_different_classes() {
    let dets = vec![det(0, "win", 900_000), det(2, "rule", 850_000)];
    let kept = nms_per_class(dets, 450_000);
    assert_eq!(kept.len(), 2, "NMS is per-class; different classes should both be kept");
}

// ---------------------------------------------------------------------------
// Laws on concrete values
// ---------------------------------------------------------------------------

fn boxed(class_id: usize, conf: u32, x1: u32, x2: u32) -> Detection {
    Detection {
        bbox: BBox { x1, y1: 0, x2, y2: 100_000 },
        class_id,
        class_name: "c".to_string(),
        confidence: conf,
    }
}

#[test]
fn iou_is_symmetric() {
    let a = BBox { x1: 0, y1: 0, x2: 300_000, y2: 300_000 };
    let b = BBox { x1: 100_000, y1: 50_000, x2: 500_000, y2: 400_000 };
    assert_eq!(a.iou(&b), b.iou(&a));
    assert_eq!(a.overlaps(&b, 100_000), b.overlaps(&a, 100_000));
}

#[test]
fn nms_survivors_do_not_overlap_within_a_class() {
    let dets = vec![
        boxed(1, 500_000, 0, 100_000),
        boxed(1, 900_000, 10_000, 110_000),
        boxed(1, 700_000, 300_000, 400_000),
        boxed(1, 800_000, 305_000, 405_000),
        boxed(0, 100_000, 0, 100_000),
    ];
    let kept = nms_per_class(dets, 500_000);
    // Class 0 first, then class 1 by decreasing confidence.
    let confs: Vec<u32> = kept.iter().map(|d| d.confidence).collect();
    assert_eq!(confs, vec![100_000, 900_000, 800_000]);
    for i in 0..kept.len() {
        for j in i + 1..kept.len() {
            if kept[i].class_id == kept[j].class_id {
                assert!(!kept[i].bbox.overlaps(&kept[j].bbox, 500_000));
            }
        }
    }
}

#[test]
fn best_detection_is_most_confident() {
    let dets = vec![boxed(7, 300_000, 0, 1), boxed(7, 800_000, 0, 1), boxed(3, 990_000, 0, 1), boxed(7, 800_000, 5, 6)];
    let b = best_detection(&dets, YoloClass::MyArrow).expect("arrow");
    assert_eq!(b.confidence, 800_000);
    // Among equals the last one.
    assert_eq!(b.bbox.x1, 5);
    assert!(best_detection(&dets, YoloClass::Draw).is_none());
}

#[test]
fn model_output_is_decoded_filtered_and_suppressed() {
    let names = result_class_names();
    assert_eq!(names[7], "MyArrow");
    let mut scores_a = vec![0u32; 10];
    scores_a[7] = 900_000;
    scores_a[3] = 100_000;
    let mut scores_b = vec![0u32; 10];
    scores_b[7] = 800_000;
    let mut scores_c = vec![0u32; 10];
    scores_c[3] = 400_000;
    let b = BBox { x1: 100_000, y1: 100_000, x2: 200_000, y2: 200_000 };
    let anchors = vec![
        AnchorOutput { bbox: b, scores: scores_a },
        AnchorOutput { bbox: b, scores: scores_b },
        AnchorOutput { bbox: b, scores: scores_c },
    ];
    let dets = decode_detections(&anchors, &names, DEFAULT_CONF_THRESHOLD, DEFAULT_IOU_THRESHOLD);
    // The weak WIN anchor is dropped; the two arrows overlap and the more
    // confident one is kept.
    assert_eq!(dets.len(), 1);
    assert_eq!(dets[0].class_id, 7);
    assert_eq!(dets[0].class_name, "MyArrow");
    assert_eq!(dets[0].confidence, 900_000);
    // Ties go to the first class.
    let tie = vec![AnchorOutput { bbox: b, scores: vec![600_000; 10] }];
    let d2 = decode_detections(&tie, &names, DEFAULT_CONF_THRESHOLD, DEFAULT_IOU_THRESHOLD);
    assert_eq!(d2[0].class_name, "BattleStart");
    let stats = stats_class_names();
    assert_eq!(stats.len(), 13);
    assert_eq!(stats[11], "icon_kill");
}

#[test]
fn detector_phases_and_one_result_per_battle() {
    let mut det = ResultDetector::new();
    assert!(det.is_waiting() && !det.is_in_game());
    // A result screen while waiting is no result.
    let white = CapturedFrame { bgra: vec![255u8; 64 * 36 * 4], width: 64, height: 36 };
    assert_eq!(det.detect(&white, "リザルト"), DetectionResult::NotDetected);
    // The banner text (spaces ignored) starts the battle.
    assert_eq!(det.detect(&white, "バ ト ル を開始します"), DetectionResult::BattleStarted);
    assert!(det.is_in_game());
    det.reset_to_waiting();
    assert!(det.is_waiting());
}

#[test]
fn regions_inside_the_frame_stay_inside() {
    let roi = Roi { x_ratio: 900_000, y_ratio: 950_000, w_ratio: 100_000, h_ratio: 50_000 };
    for (w, h) in [(1921u32, 1081u32), (1920, 1080), (7, 3), (0, 0)] {
        let (x, y, rw, rh) = roi.to_pixels(w, h);
        assert!(x + rw <= w && y + rh <= h, "{w}x{h}: {x}+{rw}, {y}+{rh}");
    }
}
