use inkgraph::preprocess::{bgra_to_rgb, bgra_to_rgba, extract_white_text, otsu_threshold, preprocess_bgra};

fn make_bgra_pixel(r: u8, g: u8, b: u8) -> Vec<u8> {
    vec![b, g, r, 255]
}

#[test]
fn test_bgra_to_rgb_image_swaps_channels() {
    let bgra = make_bgra_pixel(200, 100, 50);
    let rgb = bgra_to_rgb(&bgra);
    assert_eq!(rgb[0], 200, "R");
    assert_eq!(rgb[1], 100, "G");
    assert_eq!(rgb[2], 50, "B");
}

#[test]
fn test_extract_white_text_keeps_white() {
    let bgra = make_bgra_pixel(240, 240, 240);
    let out = extract_white_text(&bgra, 1, 1);
    assert_eq!(out[0], 255);
}

#[test]
fn test_extract_white_text_drops_colored() {
    let bgra = make_bgra_pixel(200, 50, 50);
    let out = extract_white_text(&bgra, 1, 1);
    assert_eq!(out[0], 0);
}

#[test]
fn test_preprocess_otsu_does_not_panic() {
    let data = vec![255u8; 4 * 4 * 4];
    let _out = preprocess_bgra(&data, 4, 4);
}

// ---------------------------------------------------------------------------
// Further cases
// ---------------------------------------------------------------------------

#[test]
fn white_text_thresholds() {
    // Value 180 with no saturation is white; 179 is not.
    assert_eq!(extract_white_text(&make_bgra_pixel(180, 180, 180), 1, 1), vec![255, 255, 255, 255]);
    assert_eq!(extract_white_text(&make_bgra_pixel(179, 179, 179), 1, 1), vec![0, 0, 0, 255]);
    // Saturation exactly 50 (255 - 205 = 50 of 255) is still white; 51 is not.
    assert_eq!(extract_white_text(&make_bgra_pixel(255, 205, 255), 1, 1)[0], 255);
    assert_eq!(extract_white_text(&make_bgra_pixel(255, 204, 255), 1, 1)[0], 0);
    // Trailing bytes of a partial pixel stay 0.
    assert_eq!(extract_white_text(&[255, 255, 255, 255, 9, 9], 1, 1), vec![255, 255, 255, 255, 0, 0]);
}

#[test]
fn white_text_is_idempotent() {
    let img: Vec<u8> = vec![240, 240, 240, 10, 10, 200, 250, 0, 181, 181, 180, 7, 1, 2];
    let once = extract_white_text(&img, 3, 1);
    assert_eq!(extract_white_text(&once, 3, 1), once);
}

#[test]
fn channel_swap_twice_is_identity() {
    let img: Vec<u8> = vec![1, 2, 3, 4, 5, 6, 7, 8];
    let once = bgra_to_rgba(&img);
    assert_eq!(once, vec![3, 2, 1, 4, 7, 6, 5, 8]);
    assert_eq!(bgra_to_rgba(&once), img);
    assert_eq!(bgra_to_rgb(&img), vec![3, 2, 1, 7, 6, 5]);
}

#[test]
fn otsu_splits_two_levels() {
    // Two equal clusters at 10 and 200: the first level of greatest
    // between-class variance is 10.
    let g: Vec<u8> = vec![10, 10, 10, 200, 200, 200];
    assert_eq!(otsu_threshold(&g), 10);
    // One level only: no split has two sides.
    assert_eq!(otsu_threshold(&[77, 77, 77]), 0);
    assert_eq!(otsu_threshold(&[]), 0);
    // Three clusters: the split goes between the heavy dark and the bright.
    let h: Vec<u8> = vec![0, 0, 0, 0, 0, 0, 100, 250, 250];
    let t = otsu_threshold(&h);
    assert!(t >= 100 && t < 250, "t={t}");
}

#[test]
fn preprocess_binarises_at_otsu() {
    // Two dark pixels and two bright pixels (BGRA).
    let img: Vec<u8> = vec![
        10, 10, 10, 255, 20, 20, 20, 255, 230, 230, 230, 255, 240, 240, 240, 255,
    ];
    let out = preprocess_bgra(&img, 2, 2);
    assert_eq!(out.len(), 16);
    // Levels 10, 20, 230, 240: threshold 20 is the top of the dark class,
    // so the dark pair stays black and the bright pair turns white.
    assert_eq!(&out[0..4], &[0, 0, 0, 255]);
    assert_eq!(&out[4..8], &[0, 0, 0, 255]);
    assert_eq!(&out[8..12], &[255, 255, 255, 255]);
    assert_eq!(&out[12..16], &[255, 255, 255, 255]);
}

#[test]
fn preprocess_keeps_dark_pixel_black() {
    // One black and one white pixel: the black stays black.
    let bgra: Vec<u8> = vec![0, 0, 0, 255, 255, 255, 255, 255];
    assert_eq!(preprocess_bgra(&bgra, 2, 1), vec![0, 0, 0, 255, 255, 255, 255, 255]);
}
