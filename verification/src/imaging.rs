//! Image work done by the image, imageproc and base64 crates: upscaling,
//! Otsu binarisation by imageproc, and PNG crops as base64 text.
use base64::Engine;
use vstd::prelude::*;
use crate::preprocess::{bgra_to_rgba, rgba_image};

verus! {

// ---------------------------------------------------------------------------
// Outside calls
// ---------------------------------------------------------------------------

/// What `image::imageops::resize` with the triangle filter makes of an
/// RGBA image of `width` x `height` (its first `width * height` pixels)
/// at `new_w` x `new_h`, as raw RGBA bytes.
pub uninterp spec fn triangle_resize(rgba: Seq<u8>, width: u32, height: u32, new_w: u32, new_h: u32) -> Seq<u8>;

/// `RgbaImage::from_raw` then `imageops::resize(.., FilterType::Triangle)`
/// and `into_raw`: the image resampled to `new_w` x `new_h`.  The contract
/// names the result and states its length (the new image's buffer).
#[verifier::external_body]
fn resize_rgba(rgba: Vec<u8>, width: u32, height: u32, new_w: u32, new_h: u32) -> (r: Vec<u8>)
    requires
        width as int * height as int * 4 <= rgba@.len(),
        new_w as int * new_h as int * 4 <= usize::MAX,
    ensures
        r@ == triangle_resize(rgba@, width, height, new_w, new_h),
        r@.len() == new_w as int * new_h as int * 4,
{
    let img = image::RgbaImage::from_raw(width, height, rgba).unwrap();
    image::imageops::resize(&img, new_w, new_h, image::imageops::FilterType::Triangle).into_raw()
}

/// What `imageproc::contrast::otsu_level` returns for a grey image of
/// `width` x `height` with levels `gray` (it reads the first
/// `width * height`).
pub uninterp spec fn imageproc_otsu_level(gray: Seq<u8>, width: u32, height: u32) -> u8;

/// `GrayImage::from_raw` then `imageproc::contrast::otsu_level`.  The
/// contract names the level; it holds 255 times the pixel count within a
/// `u32`, which imageproc's histogram arithmetic needs.
#[verifier::external_body]
fn otsu_level_of(gray: &Vec<u8>, width: u32, height: u32) -> (t: u8)
    requires
        width as int * height as int <= gray@.len(),
        width as int * height as int * 255 <= u32::MAX,
    ensures
        t == imageproc_otsu_level(gray@, width, height),
{
    let img = image::GrayImage::from_raw(width, height, gray.clone()).unwrap();
    imageproc::contrast::otsu_level(&img)
}

/// `GrayImage::from_raw` then `imageproc::contrast::threshold(..,
/// ThresholdType::Binary)` and `into_raw`: every byte of the buffer above
/// `t` becomes 255, every other byte 0 (imageproc documents
/// `dst = if src > threshold { 255 } else { 0 }` and applies it to the
/// whole buffer).
#[verifier::external_body]
fn threshold_binary(gray: Vec<u8>, width: u32, height: u32, t: u8) -> (r: Vec<u8>)
    requires
        width as int * height as int <= gray@.len(),
    ensures
        r@.len() == gray@.len(),
        forall|i: int| 0 <= i < r@.len() ==> #[trigger] r@[i] == if gray@[i] > t { 255u8 } else { 0u8 },
{
    let img = image::GrayImage::from_raw(width, height, gray).unwrap();
    imageproc::contrast::threshold(&img, t, imageproc::contrast::ThresholdType::Binary).into_raw()
}

/// The PNG file `image` writes for an RGBA image of `width` x `height`
/// whose pixels are `rgba`, or `None` where the encoder refuses the image.
pub uninterp spec fn png_rgba(rgba: Seq<u8>, width: u32, height: u32) -> Option<Seq<u8>>;

/// `RgbaImage::from_raw` then `write_to(.., ImageFormat::Png)` into
/// memory.  `from_raw` refuses a buffer shorter than `width * height * 4`
/// and the PNG encoder refuses a zero width or height; otherwise the
/// result is the named outcome of encoding the image's pixels (the
/// buffer's first `width * height * 4` bytes).  Writing into memory does
/// not fail, so that outcome depends on the pixels and the size alone;
/// which other images the encoder refuses is left to the name.
#[verifier::external_body]
fn encode_png(rgba: Vec<u8>, width: u32, height: u32) -> (r: Option<Vec<u8>>)
    ensures
        rgba@.len() < width as int * height as int * 4 || width == 0 || height == 0 ==> r is None,
        !(rgba@.len() < width as int * height as int * 4 || width == 0 || height == 0) ==> match r {
            Some(b) => png_rgba(rgba@.take(width as int * height as int * 4), width, height) == Some(b@),
            None => png_rgba(rgba@.take(width as int * height as int * 4), width, height) is None,
        },
{
    let img = image::RgbaImage::from_raw(width, height, rgba)?;
    let mut buf = std::io::Cursor::new(Vec::<u8>::new());
    img.write_to(&mut buf, image::ImageFormat::Png).ok()?;
    Some(buf.into_inner())
}

/// A base64 digit (standard alphabet).
pub open spec fn b64_char(v: int) -> char {
    if v < 26 {
        ('A' as int + v) as char
    } else if v < 52 {
        ('a' as int + v - 26) as char
    } else if v < 62 {
        ('0' as int + v - 52) as char
    } else if v == 62 {
        '+'
    } else {
        '/'
    }
}

/// Standard base64 with padding (RFC 4648): every three bytes become four
/// digits of six bits each, a short last group is padded with `=`.
pub open spec fn base64_spec(s: Seq<u8>) -> Seq<char>
    decreases s.len(),
{
    if s.len() == 0 {
        Seq::empty()
    } else {
        let b0 = s[0] as int;
        let b1 = if s.len() > 1 { s[1] as int } else { 0 };
        let b2 = if s.len() > 2 { s[2] as int } else { 0 };
        let c0 = b64_char(b0 / 4);
        let c1 = b64_char((b0 % 4) * 16 + b1 / 16);
        let c2 = b64_char((b1 % 16) * 4 + b2 / 64);
        let c3 = b64_char(b2 % 64);
        if s.len() == 1 {
            seq![c0, c1, '=', '=']
        } else if s.len() == 2 {
            seq![c0, c1, c2, '=']
        } else {
            seq![c0, c1, c2, c3] + base64_spec(s.skip(3))
        }
    }
}

/// `base64::engine::general_purpose::STANDARD.encode`: standard base64
/// with padding.  It panics when the encoded length overflows `usize`,
/// which the precondition leaves out.
#[verifier::external_body]
fn base64_standard(bytes: &Vec<u8>) -> (r: String)
    requires
        bytes@.len() / 3 * 4 + 4 <= usize::MAX,
    ensures
        r@ == base64_spec(bytes@),
{
    base64::engine::general_purpose::STANDARD.encode(bytes)
}

// ---------------------------------------------------------------------------
// Functions
// ---------------------------------------------------------------------------

/// The crop's pixels fit a `width` x `height` image with no zero side.
pub open spec fn crop_fits(bgra: Seq<u8>, width: u32, height: u32) -> bool {
    &&& 4 * (bgra.len() / 4) >= width as int * height as int * 4
    &&& width != 0
    &&& height != 0
}

/// The PNG encoding of a BGRA crop (its first `width * height` pixels,
/// in RGBA order).
pub open spec fn crop_png(bgra: Seq<u8>, width: u32, height: u32) -> Option<Seq<u8>> {
    png_rgba(rgba_image(bgra).take(width as int * height as int * 4), width, height)
}

/// The base64 text of a crop's PNG encoding: `None` when the crop does not
/// fit, the encoder refuses it, or its base64 length would not fit in
/// memory.
pub open spec fn crop_base64_spec(bgra: Seq<u8>, width: u32, height: u32) -> Option<Seq<char>> {
    if !crop_fits(bgra, width, height) {
        None
    } else {
        match crop_png(bgra, width, height) {
            Some(b) => if b.len() / 3 > (usize::MAX - 4) / 4 { None } else { Some(base64_spec(b)) },
            None => None,
        }
    }
}

/// A BGRA crop of `width` x `height` as a base64 PNG (for display; see
/// `crop_base64_spec`).
pub fn encode_crop_base64(bgra: &[u8], width: u32, height: u32) -> (r: Option<String>)
    ensures
        match r {
            Some(t) => crop_base64_spec(bgra@, width, height) == Some(t@),
            None => crop_base64_spec(bgra@, width, height) is None,
        },
{
    let rgba = bgra_to_rgba(bgra);
    match encode_png(rgba, width, height) {
        Some(png) => {
            if png.len() / 3 > (usize::MAX - 4) / 4 {
                return None;
            }
            Some(base64_standard(&png))
        },
        None => None,
    }
}

/// Grey levels (`(299 r + 587 g + 114 b) / 1000`) of the whole pixels of a
/// BGRA buffer.
pub open spec fn gray_levels(s: Seq<u8>) -> Seq<u8> {
    Seq::new(s.len() / 4, |i: int| ((299 * s[4 * i + 2] + 587 * s[4 * i + 1] + 114 * s[4 * i]) / 1000) as u8)
}

/// The grey image of a BGRA buffer binarised at imageproc's Otsu level:
/// white (opaque) above the level, black at or below it.
pub fn otsu_binarize(bgra: &[u8], width: u32, height: u32) -> (out: Vec<u8>)
    requires
        width as int * height as int <= bgra@.len() / 4,
        width as int * height as int * 255 <= u32::MAX,
    ensures
        out@.len() == 4 * (bgra@.len() / 4),
        forall|k: int| 0 <= k < out@.len() ==> #[trigger] out@[k] == if k % 4 == 3 {
            255u8
        } else if gray_levels(bgra@)[k / 4] > imageproc_otsu_level(gray_levels(bgra@), width, height) {
            255u8
        } else {
            0u8
        },
{
    let len: usize = bgra.len();
    let whole: usize = len / 4;
    let mut gray: Vec<u8> = Vec::new();
    let mut i: usize = 0;
    while i < whole
        invariant
            i <= whole,
            len == bgra@.len(),
            whole == bgra@.len() / 4,
            gray@ == gray_levels(bgra@).take(i as int),
        decreases whole - i,
    {
        proof {
            assert(4 * i + 4 <= bgra@.len());
        }
        let b = bgra[4 * i] as u32;
        let g = bgra[4 * i + 1] as u32;
        let r = bgra[4 * i + 2] as u32;
        gray.push(((299 * r + 587 * g + 114 * b) / 1000) as u8);
        i = i + 1;
        proof {
            assert(gray@ =~= gray_levels(bgra@).take(i as int));
        }
    }
    proof {
        assert(gray@ =~= gray_levels(bgra@));
    }
    let t = otsu_level_of(&gray, width, height);
    let bin = threshold_binary(gray, width, height, t);
    let mut out: Vec<u8> = Vec::new();
    let mut j: usize = 0;
    while j < bin.len()
        invariant
            j <= bin@.len(),
            bin@.len() == whole,
            whole == bgra@.len() / 4,
            t == imageproc_otsu_level(gray_levels(bgra@), width, height),
            forall|m: int| 0 <= m < bin@.len() ==> #[trigger] bin@[m] == if gray_levels(bgra@)[m] > t { 255u8 } else { 0u8 },
            out@.len() == 4 * j,
            forall|k: int| 0 <= k < out@.len() ==> #[trigger] out@[k] == if k % 4 == 3 {
                255u8
            } else if gray_levels(bgra@)[k / 4] > t {
                255u8
            } else {
                0u8
            },
        decreases bin@.len() - j,
    {
        let v = bin[j];
        out.push(v);
        out.push(v);
        out.push(v);
        out.push(255);
        proof {
            assert forall|k: int| 4 * j <= k < 4 * j + 4 implies #[trigger] out@[k] == if k % 4 == 3 {
                255u8
            } else if gray_levels(bgra@)[k / 4] > t {
                255u8
            } else {
                0u8
            } by {
                assert(k / 4 == j as int);
            }
        }
        j = j + 1;
    }
    out
}

/// A BGRA image scaled to twice its width and height by triangle
/// resampling: the new image, its width and its height.
pub fn upscale_2x(bgra: &[u8], width: u32, height: u32) -> (r: (Vec<u8>, u32, u32))
    requires
        width as int * height as int * 4 <= 4 * (bgra@.len() / 4),
        2 * width <= u32::MAX,
        2 * height <= u32::MAX,
        (2 * width) * (2 * height) * 4 <= usize::MAX,
    ensures
        r.1 == 2 * width,
        r.2 == 2 * height,
        r.0@ == rgba_image(triangle_resize(rgba_image(bgra@), width, height, r.1, r.2)),
{
    let new_w = width * 2;
    let new_h = height * 2;
    let rgba = bgra_to_rgba(bgra);
    let resized = resize_rgba(rgba, width, height, new_w, new_h);
    (bgra_to_rgba(resized.as_slice()), new_w, new_h)
}

} // verus!
