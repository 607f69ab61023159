use inkgraph::cascade::{cluster_and_parse, digit_value, digits_to_int};
use inkgraph::detection::{sort_detections, BBox, Detection};

/// A detection centred at `cx` (millionths), 0.02 wide.
fn make_det(class_name: &str, cx: u32, conf: u32) -> Detection {
    Detection {
        bbox: BBox { x1: cx - 10_000, y1: 300_000, x2: cx + 10_000, y2: 700_000 },
        class_id: 0,
        class_name: class_name.to_string(),
        confidence: conf,
    }
}

#[test]
fn test_digits_empty() {
    assert_eq!(digits_to_int(&[]), None);
}

#[test]
fn test_digits_single() {
    assert_eq!(digits_to_int(&[7]), Some(7));
}

#[test]
fn test_digits_multi() {
    assert_eq!(digits_to_int(&[1, 3, 4, 1]), Some(1341));
}

#[test]
fn test_digits_zero_padded() {
    assert_eq!(digits_to_int(&[0, 5]), Some(5));
}

#[test]
fn test_digits_overflow() {
    let many_nines: Vec<u8> = vec![9; 20];
    assert_eq!(digits_to_int(&many_nines), None);
}

#[test]
fn test_digit_value_all() {
    for i in 0u8..=9 {
        assert_eq!(digit_value(&format!("digit_{i}")), Some(i));
    }
}

#[test]
fn test_digit_value_icon() {
    assert_eq!(digit_value("icon_kill"), None);
    assert_eq!(digit_value("icon_death"), None);
    assert_eq!(digit_value("icon_special"), None);
}

#[test]
fn test_cluster_no_detections() {
    let stats = cluster_and_parse(&[], 0);
    assert!(stats.paint.is_none());
    assert!(stats.kill.is_none());
    assert!(stats.death.is_none());
    assert!(stats.special.is_none());
}

#[test]
fn test_cluster_no_anchors() {
    let dets = vec![make_det("digit_3", 500_000, 900_000)];
    let stats = cluster_and_parse(&dets, 0);
    assert!(stats.paint.is_none(), "paint should be None without kill anchor");
    assert!(stats.kill.is_none());
    assert!(stats.death.is_none());
    assert!(stats.special.is_none());
}

#[test]
fn test_cluster_clean() {
    let dets = vec![
        make_det("digit_1", 100_000, 900_000),
        make_det("digit_5", 150_000, 900_000),
        make_det("icon_kill", 300_000, 900_000),
        make_det("digit_3", 350_000, 900_000),
        make_det("digit_0", 400_000, 900_000),
        make_det("icon_death", 500_000, 900_000),
        make_det("digit_2", 550_000, 900_000),
        make_det("icon_special", 700_000, 900_000),
        make_det("digit_1", 800_000, 900_000),
        make_det("digit_2", 850_000, 900_000),
    ];
    let dets = sort_detections(dets, false);
    let stats = cluster_and_parse(&dets, 0);
    assert_eq!(stats.paint, Some(15));
    assert_eq!(stats.kill, Some(30));
    assert_eq!(stats.death, Some(2));
    assert_eq!(stats.special, Some(12));
}

#[test]
fn test_cluster_boundary_at_icon_left_edge() {
    let dets = vec![
        make_det("digit_9", 100_000, 900_000),
        make_det("icon_kill", 300_000, 900_000),
        make_det("digit_1", 281_000, 900_000),
        make_det("digit_2", 350_000, 900_000),
        make_det("icon_death", 500_000, 900_000),
        make_det("icon_special", 700_000, 900_000),
    ];
    let dets = sort_detections(dets, false);
    let stats = cluster_and_parse(&dets, 0);
    assert_eq!(stats.paint, Some(91));
    assert_eq!(stats.kill, Some(2));
    assert_eq!(stats.death, None);
    assert_eq!(stats.special, None);
}
