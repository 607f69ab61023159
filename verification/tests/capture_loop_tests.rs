use inkgraph::capture_loop::{frame_outcome, is_battle_start, process_frame, process_frame_at, stats_crop_rect};
use inkgraph::detection::{BBox, Detection};
use inkgraph::detector::Outcome;
use inkgraph::frame::CapturedFrame;
use inkgraph::screen_state::{ScreenState, ScreenStateMachine};

fn det(class_id: usize, name: &str, conf: u32, y1: u32, y2: u32) -> Detection {
    Detection {
        bbox: BBox { x1: 400_000, y1, x2: 500_000, y2 },
        class_id,
        class_name: name.to_string(),
        confidence: conf,
    }
}

fn black_frame() -> CapturedFrame {
    CapturedFrame { bgra: vec![0u8; 64 * 36 * 4], width: 64, height: 36 }
}

#[test]
fn battle_start_needs_confidence() {
    assert!(is_battle_start(&[det(0, "BattleStart", 600_000, 0, 10)]));
    assert!(!is_battle_start(&[det(0, "BattleStart", 599_999, 0, 10)]));
    assert!(!is_battle_start(&[]));
}

#[test]
fn outcome_from_banners_and_arrow() {
    let f = black_frame();
    assert_eq!(frame_outcome(&[det(5, "Draw", 550_000, 0, 10)], &f), Some(Outcome::Draw));
    let win = vec![det(3, "Win", 300_000, 0, 10), det(7, "MyArrow", 900_000, 400_000, 420_000)];
    assert_eq!(frame_outcome(&win, &f), Some(Outcome::Win));
    let lose = vec![det(7, "MyArrow", 400_000, 700_000, 720_000)];
    assert_eq!(frame_outcome(&lose, &f), Some(Outcome::Lose));
    // At the boundary the arrow is on the LOSE side.
    let edge = vec![det(7, "MyArrow", 400_000, 630_000, 630_000)];
    assert_eq!(frame_outcome(&edge, &f), Some(Outcome::Lose));
    // A weak banner and no pixels: nothing.
    assert_eq!(frame_outcome(&[det(3, "Win", 299_999, 0, 10)], &f), None);
    // Result screen without an arrow on a black frame: the pixel tests find nothing.
    assert_eq!(frame_outcome(&[det(4, "Lose", 900_000, 0, 10)], &f), None);
}

#[test]
fn a_frame_with_start_and_result_reports_the_new_battle() {
    let mut m = ScreenStateMachine::new();
    let f = black_frame();
    let dets = vec![det(0, "BattleStart", 900_000, 0, 10), det(7, "MyArrow", 900_000, 300_000, 320_000)];
    let ev = process_frame_at(&mut m, &dets, &f, 1_000);
    let started = ev.started.expect("battle start accepted");
    assert_eq!(started.result, "in_progress");
    let (id, outcome) = ev.result.expect("result reported");
    assert_eq!(id, started.id);
    assert_eq!(outcome, Outcome::Win);
    assert!(matches!(m.state(), ScreenState::InGame { .. }));
}

#[test]
fn results_need_a_battle_and_starts_respect_the_cooldown() {
    let mut m = ScreenStateMachine::new();
    let f = black_frame();
    let result_only = vec![det(7, "MyArrow", 900_000, 700_000, 720_000)];
    let ev = process_frame_at(&mut m, &result_only, &f, 0);
    assert!(ev.started.is_none());
    assert!(ev.result.is_none());

    let start = vec![det(0, "BattleStart", 900_000, 0, 10)];
    let first = process_frame_at(&mut m, &start, &f, 5_000).started.expect("first start");
    // 19.999 s later the start is ignored.
    assert!(process_frame_at(&mut m, &start, &f, 24_999).started.is_none());
    let (id, o) = process_frame_at(&mut m, &result_only, &f, 30_000).result.expect("result");
    assert_eq!(id, first.id);
    assert_eq!(o, Outcome::Lose);
    // 20 s after the first start a new one is accepted.
    let second = process_frame_at(&mut m, &start, &f, 31_000).started.expect("second start");
    assert_ne!(second.id, first.id);
}

#[test]
fn process_frame_uses_the_machine_clock() {
    let mut m = ScreenStateMachine::new();
    let f = black_frame();
    let ev = process_frame(&mut m, &[det(0, "BattleStart", 900_000, 0, 10)], &f);
    assert!(ev.started.is_some());
    assert!(ev.result.is_none());
}

#[test]
fn stats_strip_rectangle() {
    // Arrow from 0.5 to 0.55 of 1080 px: centre 567, height 54, half 32.
    let a = BBox { x1: 0, y1: 500_000, x2: 10, y2: 550_000 };
    assert_eq!(stats_crop_rect(&a, 1920, 1080), (864, 535, 787, 64));
    // A flat arrow at the top: half-height 15, clipped at 0.
    let top = BBox { x1: 0, y1: 0, x2: 10, y2: 0 };
    assert_eq!(stats_crop_rect(&top, 1920, 1080), (864, 0, 787, 30));
    // At the bottom the strip is clipped to the frame.
    let bottom = BBox { x1: 0, y1: 1_000_000, x2: 10, y2: 1_000_000 };
    assert_eq!(stats_crop_rect(&bottom, 1920, 1080), (864, 1065, 787, 15));
}
