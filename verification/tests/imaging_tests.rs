use base64::Engine;
use inkgraph::imaging::{encode_crop_base64, otsu_binarize, upscale_2x};

#[test]
fn crop_is_encoded_as_base64_png() {
    let bgra = vec![0u8, 0, 255, 255, 0, 255, 0, 255];
    let text = encode_crop_base64(&bgra, 2, 1).expect("encoded");
    // The PNG signature in base64.
    assert!(text.starts_with("iVBORw0KGgo"), "{text}");
    let png = base64::engine::general_purpose::STANDARD.decode(&text).expect("valid base64");
    assert_eq!(&png[0..8], &[0x89, b'P', b'N', b'G', 0x0d, 0x0a, 0x1a, 0x0a]);
}

#[test]
fn crop_encoding_refuses_short_buffers_and_empty_images() {
    assert!(encode_crop_base64(&[1, 2, 3, 4], 2, 1).is_none());
    assert!(encode_crop_base64(&[], 0, 0).is_none());
    assert!(encode_crop_base64(&[1, 2, 3, 4], 0, 1).is_none());
}

#[test]
fn otsu_binarize_by_imageproc() {
    let px = |v: u8| [v, v, v, 255];
    let mut bgra = Vec::new();
    for v in [10u8, 10, 200, 200] {
        bgra.extend_from_slice(&px(v));
    }
    let out = otsu_binarize(&bgra, 2, 2);
    assert_eq!(out.len(), 16);
    assert_eq!(&out[0..4], &[0, 0, 0, 255]);
    assert_eq!(&out[4..8], &[0, 0, 0, 255]);
    assert_eq!(&out[8..12], &[255, 255, 255, 255]);
    assert_eq!(&out[12..16], &[255, 255, 255, 255]);
}

#[test]
fn upscale_doubles_the_size() {
    let bgra = vec![255u8; 4];
    let (out, w, h) = upscale_2x(&bgra, 1, 1);
    assert_eq!((w, h), (2, 2));
    assert_eq!(out.len(), 16);
    assert!(out.iter().all(|&b| b == 255));
    // Channel order is kept: a blue pixel stays blue.
    let blue = vec![200u8, 10, 20, 255, 200, 10, 20, 255];
    let (out2, w2, h2) = upscale_2x(&blue, 2, 1);
    assert_eq!((w2, h2), (4, 2));
    assert_eq!(&out2[0..4], &[200, 10, 20, 255]);
}
