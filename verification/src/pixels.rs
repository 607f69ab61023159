//! Pixel tests on result screens: grey player rows, the yellow player
//! arrow, and the dark scroll behind the battle-start banner.
use vstd::prelude::*;
use crate::frame::CapturedFrame;
use crate::geometry::{scale, scale_spec, Roi, UNIT};

verus! {

/// Boundary between the WIN panel and the LOSE panel (millionths of height).
pub const PANEL_BOUNDARY_Y: u32 = 630_000;
/// Horizontal band scanned for the yellow arrow (millionths of width).
pub const ARROW_X_START: u32 = 455_000;
pub const ARROW_X_END: u32 = 505_000;
/// Vertical band scanned for the yellow arrow (millionths of height).
pub const ARROW_Y_START: u32 = 270_000;
pub const ARROW_Y_END: u32 = 940_000;
/// Fewest yellow pixels that count as an arrow.
pub const MIN_YELLOW_PIXELS: u32 = 100;
/// Least luminance of a grey sample.
pub const GREY_LUMINANCE_MIN: u16 = 180;
/// Largest saturation (max channel - min channel) of a grey sample.
pub const GREY_SATURATION_MAX: u8 = 40;
/// Grey rows needed in each half for a result screen.
pub const RESULT_GREY_ROWS_MIN_PER_HALF: u32 = 2;

/// Area of the "battle start" banner text.
pub open spec fn battle_start_roi_spec() -> Roi {
    Roi { x_ratio: 250_000, y_ratio: 360_000, w_ratio: 500_000, h_ratio: 200_000 }
}

/// Area of the "battle start" banner text.
pub fn battle_start_roi() -> (r: Roi)
    ensures
        r == battle_start_roi_spec(),
{
    Roi { x_ratio: 250_000, y_ratio: 360_000, w_ratio: 500_000, h_ratio: 200_000 }
}

/// Area of the WIN banner (diagnostics only).
pub open spec fn win_roi_spec() -> Roi {
    Roi { x_ratio: 455_000, y_ratio: 267_000, w_ratio: 190_000, h_ratio: 65_000 }
}

/// Area of the WIN banner (diagnostics only).
pub fn win_roi() -> (r: Roi)
    ensures
        r == win_roi_spec(),
{
    Roi { x_ratio: 455_000, y_ratio: 267_000, w_ratio: 190_000, h_ratio: 65_000 }
}

// ---------------------------------------------------------------------------
// Pixel access
// ---------------------------------------------------------------------------

/// Byte index of the pixel at (`x`, `y`) in a frame of width `w`.
pub open spec fn px_index(w: int, x: int, y: int) -> int {
    (y * w + x) * 4
}

/// Index computation without overflow: `(y * w + x) * 4` as a `u128`.
fn pixel_index(w: u32, x: u64, y: u64) -> (i: u128)
    requires
        x <= 0x2_0000_0000,
        y <= 0x2_0000_0000,
    ensures
        i == px_index(w as int, x as int, y as int),
        i < 0x100_0000_0000_0000_0000,
{
    proof {
        assert(0 <= y as int * w as int <= 0x2_0000_0000 * 0x1_0000_0000) by (nonlinear_arith)
            requires
                y <= 0x2_0000_0000,
        ;
    }
    (y as u128 * w as u128 + x as u128) * 4
}

// ---------------------------------------------------------------------------
// Grey player rows
// ---------------------------------------------------------------------------

/// Row heights of the WIN-side player rows (millionths of height).
pub open spec fn win_row_ratio(i: int) -> int {
    if i == 0 { 324_000 } else if i == 1 { 411_000 } else if i == 2 { 499_000 } else { 586_000 }
}

/// Row heights of the LOSE-side player rows (millionths of height).
pub open spec fn lose_row_ratio(i: int) -> int {
    if i == 0 { 669_000 } else if i == 1 { 746_000 } else if i == 2 { 824_000 } else { 901_000 }
}

/// Sample columns on a player row (millionths of width).
pub open spec fn sample_x_ratio(j: int) -> int {
    if j == 0 { 550_000 } else if j == 1 { 650_000 } else { 750_000 }
}

/// The pixel at byte index `idx` is a grey sample: it lies in the buffer,
/// its mean channel value is at least 180 and its saturation at most 40.
pub open spec fn grey_pixel(s: Seq<u8>, idx: int) -> bool {
    &&& 0 <= idx
    &&& idx + 2 < s.len()
    &&& {
        let b = s[idx] as int;
        let g = s[idx + 1] as int;
        let r = s[idx + 2] as int;
        let mx = if r >= g && r >= b { r } else if g >= b { g } else { b };
        let mn = if r <= g && r <= b { r } else if g <= b { g } else { b };
        &&& (r + g + b) / 3 >= GREY_LUMINANCE_MIN as int
        &&& mx - mn <= GREY_SATURATION_MAX as int
    }
}

/// Sample `j` of the row at height ratio `yr` is grey.
pub open spec fn grey_sample(s: Seq<u8>, w: int, h: int, yr: int, j: int) -> bool {
    grey_pixel(s, px_index(w, scale_spec(sample_x_ratio(j), w), scale_spec(yr, h)))
}

/// Number of grey samples on the row at height ratio `yr`.
pub open spec fn grey_samples(s: Seq<u8>, w: int, h: int, yr: int) -> int {
    (if grey_sample(s, w, h, yr, 0) { 1int } else { 0int })
        + (if grey_sample(s, w, h, yr, 1) { 1int } else { 0int })
        + (if grey_sample(s, w, h, yr, 2) { 1int } else { 0int })
}

/// The row at height ratio `yr` is a grey player row: two samples or more.
pub open spec fn grey_row(s: Seq<u8>, w: int, h: int, yr: int) -> bool {
    grey_samples(s, w, h, yr) >= 2
}

/// Number of grey rows among the first `n` rows given by `ratio`.
pub open spec fn grey_rows_upto(s: Seq<u8>, w: int, h: int, win_side: bool, n: int) -> int
    decreases n,
{
    if n <= 0 {
        0
    } else {
        let yr = if win_side { win_row_ratio(n - 1) } else { lose_row_ratio(n - 1) };
        grey_rows_upto(s, w, h, win_side, n - 1) + if grey_row(s, w, h, yr) { 1int } else { 0int }
    }
}

/// Grey rows on the WIN side and on the LOSE side.
pub open spec fn grey_rows_spec(f: CapturedFrame) -> (int, int) {
    (
        grey_rows_upto(f.bgra@, f.width as int, f.height as int, true, 4),
        grey_rows_upto(f.bgra@, f.width as int, f.height as int, false, 4),
    )
}

fn is_grey_pixel(s: &Vec<u8>, idx: u128) -> (r: bool)
    requires
        idx < 0x100_0000_0000_0000_0000,
    ensures
        r == grey_pixel(s@, idx as int),
{
    if idx + 2 >= s.len() as u128 {
        return false;
    }
    let i = idx as usize;
    let b = s[i];
    let g = s[i + 1];
    let r = s[i + 2];
    let lum: u16 = (r as u16 + g as u16 + b as u16) / 3;
    let mx: u8 = if r >= g && r >= b { r } else if g >= b { g } else { b };
    let mn: u8 = if r <= g && r <= b { r } else if g <= b { g } else { b };
    lum >= GREY_LUMINANCE_MIN && mx - mn <= GREY_SATURATION_MAX
}

fn sample_x(j: u32) -> (r: u32)
    requires
        j < 3,
    ensures
        r == sample_x_ratio(j as int),
{
    if j == 0 { 550_000 } else if j == 1 { 650_000 } else { 750_000 }
}

fn row_ratio(win_side: bool, i: u32) -> (r: u32)
    requires
        i < 4,
    ensures
        r == (if win_side { win_row_ratio(i as int) } else { lose_row_ratio(i as int) }),
{
    if win_side {
        if i == 0 { 324_000 } else if i == 1 { 411_000 } else if i == 2 { 499_000 } else { 586_000 }
    } else {
        if i == 0 { 669_000 } else if i == 1 { 746_000 } else if i == 2 { 824_000 } else { 901_000 }
    }
}

fn is_grey_row(frame: &CapturedFrame, yr: u32) -> (r: bool)
    ensures
        r == grey_row(frame.bgra@, frame.width as int, frame.height as int, yr as int),
{
    let y = scale(yr, frame.height);
    let mut n: u32 = 0;
    let mut j: u32 = 0;
    while j < 3
        invariant
            j <= 3,
            n as int == (if j > 0 && grey_sample(frame.bgra@, frame.width as int, frame.height as int, yr as int, 0) { 1int } else { 0int })
                + (if j > 1 && grey_sample(frame.bgra@, frame.width as int, frame.height as int, yr as int, 1) { 1int } else { 0int })
                + (if j > 2 && grey_sample(frame.bgra@, frame.width as int, frame.height as int, yr as int, 2) { 1int } else { 0int }),
            y == scale_spec(yr as int, frame.height as int),
        decreases 3 - j,
    {
        let x = scale(sample_x(j), frame.width);
        let idx = pixel_index(frame.width, x as u64, y as u64);
        if is_grey_pixel(&frame.bgra, idx) {
            n = n + 1;
        }
        j = j + 1;
    }
    n >= 2
}

/// Counts the grey player rows on the WIN side and on the LOSE side.
///
/// Each side has four rows; a row is grey when at least two of its three
/// samples are bright (mean channel >= 180) and unsaturated (<= 40).
pub fn count_grey_rows(frame: &CapturedFrame) -> (r: (u32, u32))
    ensures
        r.0 as int == grey_rows_spec(*frame).0,
        r.1 as int == grey_rows_spec(*frame).1,
        r.0 <= 4,
        r.1 <= 4,
{
    let mut win: u32 = 0;
    let mut lose: u32 = 0;
    let mut i: u32 = 0;
    while i < 4
        invariant
            i <= 4,
            win as int == grey_rows_upto(frame.bgra@, frame.width as int, frame.height as int, true, i as int),
            lose as int == grey_rows_upto(frame.bgra@, frame.width as int, frame.height as int, false, i as int),
            win <= i,
            lose <= i,
        decreases 4 - i,
    {
        if is_grey_row(frame, row_ratio(true, i)) {
            win = win + 1;
        }
        if is_grey_row(frame, row_ratio(false, i)) {
            lose = lose + 1;
        }
        i = i + 1;
    }
    (win, lose)
}


// ---------------------------------------------------------------------------
// Pixel classes and row counts
// ---------------------------------------------------------------------------

/// The pixel at `idx` lies wholly in the buffer.
pub open spec fn valid_pixel(s: Seq<u8>, idx: int) -> bool {
    0 <= idx && idx + 2 < s.len()
}

/// Yellow arrow colour: R > 200, G > 170, B < 80.
pub open spec fn yellow_pixel(s: Seq<u8>, idx: int) -> bool {
    valid_pixel(s, idx) && s[idx + 2] > 200 && s[idx + 1] > 170 && s[idx] < 80
}

/// Dark scroll colour: luminance (299 R + 587 G + 114 B) / 1000 below 30.
pub open spec fn dark_pixel(s: Seq<u8>, idx: int) -> bool {
    valid_pixel(s, idx) && (299 * s[idx + 2] + 587 * s[idx + 1] + 114 * s[idx]) / 1000 < 30
}

/// Pixel class `kind`: 0 yellow, 1 inside the buffer, 2 dark.
pub open spec fn pixel_of_kind(s: Seq<u8>, idx: int, kind: int) -> bool {
    if kind == 0 {
        yellow_pixel(s, idx)
    } else if kind == 1 {
        valid_pixel(s, idx)
    } else {
        dark_pixel(s, idx)
    }
}

/// Pixels of class `kind` in row `y`, columns `[x0, x)`.
pub open spec fn row_count(s: Seq<u8>, w: int, y: int, x0: int, x: int, kind: int) -> int
    decreases x - x0,
{
    if x <= x0 {
        0
    } else {
        row_count(s, w, y, x0, x - 1, kind) + if pixel_of_kind(s, px_index(w, x - 1, y), kind) {
            1int
        } else {
            0int
        }
    }
}

/// The colour of the player's arrow: R > 200, G > 170, B < 80.
pub fn is_arrow_yellow(r: u8, g: u8, b: u8) -> (y: bool)
    ensures
        y == (r > 200 && g > 170 && b < 80),
{
    r > 200 && g > 170 && b < 80
}

fn pixel_is_kind(s: &Vec<u8>, idx: u128, kind: u8) -> (r: bool)
    requires
        idx < 0x100_0000_0000_0000_0000,
    ensures
        r == pixel_of_kind(s@, idx as int, kind as int),
{
    if idx + 2 >= s.len() as u128 {
        return false;
    }
    if kind == 1 {
        return true;
    }
    let i = idx as usize;
    let b = s[i];
    let g = s[i + 1];
    let r = s[i + 2];
    if kind == 0 {
        is_arrow_yellow(r, g, b)
    } else {
        (299 * r as u32 + 587 * g as u32 + 114 * b as u32) / 1000 < 30
    }
}

/// Counts the pixels of class `kind` in row `y`, columns `[x0, xe)`.
fn count_row(s: &Vec<u8>, w: u32, y: u64, x0: u64, xe: u64, kind: u8) -> (n: u64)
    requires
        x0 <= 0x2_0000_0000,
        xe <= 0x2_0000_0000,
        y <= 0x2_0000_0000,
    ensures
        n == row_count(s@, w as int, y as int, x0 as int, xe as int, kind as int),
        n <= if xe > x0 { xe - x0 } else { 0 },
{
    if xe <= x0 {
        return 0;
    }
    let mut n: u64 = 0;
    let mut x: u64 = x0;
    while x < xe
        invariant
            x0 <= x <= xe,
            xe <= 0x2_0000_0000,
            y <= 0x2_0000_0000,
            n == row_count(s@, w as int, y as int, x0 as int, x as int, kind as int),
            n <= x - x0,
        decreases xe - x,
    {
        let idx = pixel_index(w, x, y);
        if pixel_is_kind(s, idx, kind) {
            n = n + 1;
        }
        x = x + 1;
    }
    n
}

// ---------------------------------------------------------------------------
// Yellow arrow
// ---------------------------------------------------------------------------

/// Row `y` belongs to side `side`: 0 both, 1 WIN (above `mid`), 2 LOSE.
pub open spec fn on_side(y: int, mid: int, side: int) -> bool {
    side == 0 || (side == 1 && y < mid) || (side == 2 && y >= mid)
}

/// Yellow pixels in rows `[y0, y)` on side `side`, columns `[x0, x1)`.
pub open spec fn band_count(s: Seq<u8>, w: int, x0: int, x1: int, y0: int, y: int, mid: int, side: int) -> int
    decreases y - y0,
{
    if y <= y0 {
        0
    } else {
        band_count(s, w, x0, x1, y0, y - 1, mid, side) + if on_side(y - 1, mid, side) {
            row_count(s, w, y - 1, x0, x1, 0)
        } else {
            0
        }
    }
}

/// Sum of the row numbers of the yellow pixels in rows `[y0, y)`.
pub open spec fn band_ysum(s: Seq<u8>, w: int, x0: int, x1: int, y0: int, y: int) -> int
    decreases y - y0,
{
    if y <= y0 {
        0
    } else {
        band_ysum(s, w, x0, x1, y0, y - 1) + (y - 1) * row_count(s, w, y - 1, x0, x1, 0)
    }
}

/// First row in `[y0, y)` holding a yellow pixel, or -1.
pub open spec fn first_yellow_row(s: Seq<u8>, w: int, x0: int, x1: int, y0: int, y: int) -> int
    decreases y - y0,
{
    if y <= y0 {
        -1
    } else {
        let f = first_yellow_row(s, w, x0, x1, y0, y - 1);
        if f >= 0 {
            f
        } else if row_count(s, w, y - 1, x0, x1, 0) > 0 {
            y - 1
        } else {
            -1
        }
    }
}

/// Last row in `[y0, y)` holding a yellow pixel, or -1.
pub open spec fn last_yellow_row(s: Seq<u8>, w: int, x0: int, x1: int, y0: int, y: int) -> int
    decreases y - y0,
{
    if y <= y0 {
        -1
    } else if row_count(s, w, y - 1, x0, x1, 0) > 0 {
        y - 1
    } else {
        last_yellow_row(s, w, x0, x1, y0, y - 1)
    }
}

pub open spec fn min_int(a: int, b: int) -> int {
    if a <= b { a } else { b }
}

/// The arrow scan: (yellow pixels above the panel boundary, yellow pixels
/// below it, centroid height in millionths of the frame height, spread in
/// rows between the first and the last yellow row).  With no yellow pixel
/// the centroid is one half.
pub open spec fn yellow_arrow_spec(f: CapturedFrame) -> (int, int, int, int) {
    let s = f.bgra@;
    let w = f.width as int;
    let h = f.height as int;
    let x0 = scale_spec(ARROW_X_START as int, w);
    let x1 = min_int(scale_spec(ARROW_X_END as int, w), w);
    let y0 = scale_spec(ARROW_Y_START as int, h);
    let y1 = min_int(scale_spec(ARROW_Y_END as int, h), h);
    let mid = scale_spec(PANEL_BOUNDARY_Y as int, h);
    let total = band_count(s, w, x0, x1, y0, y1, mid, 0);
    let centroid = if total > 0 {
        (band_ysum(s, w, x0, x1, y0, y1) / total) * (UNIT as int) / h
    } else {
        (UNIT as int) / 2
    };
    let spread = if total > 0 {
        last_yellow_row(s, w, x0, x1, y0, y1) - first_yellow_row(s, w, x0, x1, y0, y1)
    } else {
        0
    };
    (band_count(s, w, x0, x1, y0, y1, mid, 1), band_count(s, w, x0, x1, y0, y1, mid, 2), centroid, spread)
}

proof fn lemma_row_count_nonneg(s: Seq<u8>, w: int, y: int, x0: int, x: int, kind: int)
    ensures
        row_count(s, w, y, x0, x, kind) >= 0,
    decreases x - x0,
{
    if x > x0 {
        lemma_row_count_nonneg(s, w, y, x0, x - 1, kind);
    }
}

proof fn lemma_first_last(s: Seq<u8>, w: int, x0: int, x1: int, y0: int, y: int)
    requires
        0 <= y0,
    ensures
        band_count(s, w, x0, x1, y0, y, 0, 0) > 0 ==> y0 <= first_yellow_row(s, w, x0, x1, y0, y)
            <= last_yellow_row(s, w, x0, x1, y0, y) < y,
        band_count(s, w, x0, x1, y0, y, 0, 0) > 0 <==> first_yellow_row(s, w, x0, x1, y0, y) >= 0,
        band_count(s, w, x0, x1, y0, y, 0, 0) > 0 <==> last_yellow_row(s, w, x0, x1, y0, y) >= 0,
        band_count(s, w, x0, x1, y0, y, 0, 0) >= 0,
    decreases y - y0,
{
    if y > y0 {
        lemma_first_last(s, w, x0, x1, y0, y - 1);
        lemma_row_count_nonneg(s, w, y - 1, x0, x1, 0);
    }
}

proof fn lemma_band_any_mid(s: Seq<u8>, w: int, x0: int, x1: int, y0: int, y: int, mid: int)
    ensures
        band_count(s, w, x0, x1, y0, y, mid, 0) == band_count(s, w, x0, x1, y0, y, 0, 0),
    decreases y - y0,
{
    if y > y0 {
        lemma_band_any_mid(s, w, x0, x1, y0, y - 1, mid);
    }
}

/// Counts the yellow arrow pixels in the arrow band, split at the panel
/// boundary; also returns their mean row (as a ratio of the frame height)
/// and the spread between the first and the last yellow row.
pub fn count_yellow_arrow_pixels(frame: &CapturedFrame) -> (r: (u32, u32, u32, u32))
    requires
        frame.width as int * frame.height as int <= u32::MAX as int,
    ensures
        r.0 as int == yellow_arrow_spec(*frame).0,
        r.1 as int == yellow_arrow_spec(*frame).1,
        r.2 as int == yellow_arrow_spec(*frame).2,
        r.3 as int == yellow_arrow_spec(*frame).3,
{
    let w = frame.width;
    let h = frame.height;
    let x0 = scale(ARROW_X_START, w);
    let x1a = scale(ARROW_X_END, w);
    let x1 = if x1a <= w { x1a } else { w };
    let y0 = scale(ARROW_Y_START, h);
    let y1a = scale(ARROW_Y_END, h);
    let y1 = if y1a <= h { y1a } else { h };
    let mid = scale(PANEL_BOUNDARY_Y, h);
    let ghost s = frame.bgra@;
    let cols: u64 = if x1 > x0 { (x1 - x0) as u64 } else { 0 };

    let mut win: u64 = 0;
    let mut lose: u64 = 0;
    let mut total: u64 = 0;
    let mut sum_y: u64 = 0;
    let mut first: Option<u32> = None;
    let mut last: u32 = 0;
    let mut y: u32 = y0;
    if y0 < y1 {
        while y < y1
            invariant
                y0 <= y <= y1,
                y1 <= h,
                x1 <= w,
                w as int * h as int <= u32::MAX as int,
                s == frame.bgra@,
                cols == (if x1 > x0 { x1 - x0 } else { 0 }),
                win == band_count(s, w as int, x0 as int, x1 as int, y0 as int, y as int, mid as int, 1),
                lose == band_count(s, w as int, x0 as int, x1 as int, y0 as int, y as int, mid as int, 2),
                total == band_count(s, w as int, x0 as int, x1 as int, y0 as int, y as int, 0, 0),
                win + lose == total,
                total <= (y - y0) as int * cols as int,
                total <= u32::MAX,
                sum_y == band_ysum(s, w as int, x0 as int, x1 as int, y0 as int, y as int),
                sum_y <= total as int * y as int,
                first is None <==> first_yellow_row(s, w as int, x0 as int, x1 as int, y0 as int, y as int) < 0,
                first matches Some(fy) ==> fy == first_yellow_row(s, w as int, x0 as int, x1 as int, y0 as int, y as int),
                total > 0 ==> last == last_yellow_row(s, w as int, x0 as int, x1 as int, y0 as int, y as int),
            decreases y1 - y,
        {
            proof {
                lemma_first_last(s, w as int, x0 as int, x1 as int, y0 as int, y as int);
                lemma_band_any_mid(s, w as int, x0 as int, x1 as int, y0 as int, y as int + 1, mid as int);
            }
            let rc = count_row(&frame.bgra, w, y as u64, x0 as u64, x1 as u64, 0);
            proof {
                let ghost k: int = (y - y0) as int;
                let ghost c: int = cols as int;
                assert(c <= w as int);
                assert(k + 1 <= h as int);
                assert((k + 1) * c <= w as int * h as int) by (nonlinear_arith)
                    requires
                        k + 1 <= h as int,
                        c <= w as int,
                        c >= 0,
                        k >= 0,
                ;
                assert(k * c + c == (k + 1) * c) by (nonlinear_arith);
                assert(total as int + rc as int <= (k + 1) * c);
                assert(total as int + rc as int <= u32::MAX as int);
                assert(total as int * y as int + y as int * rc as int == (total + rc) as int * y as int)
                    by (nonlinear_arith);
                assert((total + rc) as int * y as int <= (total + rc) as int * (y as int + 1))
                    by (nonlinear_arith)
                    requires
                        total + rc >= 0,
                ;
                assert((total + rc) as int * (y as int + 1) <= u32::MAX as int * u32::MAX as int)
                    by (nonlinear_arith)
                    requires
                        total + rc <= u32::MAX,
                        y as int + 1 <= u32::MAX as int,
                        total + rc >= 0,
                ;
                assert(y as int * rc as int <= u32::MAX as int * u32::MAX as int) by (nonlinear_arith)
                    requires
                        rc <= u32::MAX,
                        y <= u32::MAX,
                ;
            }
            if rc > 0 {
                if first.is_none() {
                    first = Some(y);
                }
                last = y;
            }
            if y < mid {
                win = win + rc;
            } else {
                lose = lose + rc;
            }
            sum_y = sum_y + y as u64 * rc;
            total = total + rc;
            y = y + 1;
        }
    }
    proof {
        lemma_first_last(s, w as int, x0 as int, x1 as int, y0 as int, y1 as int);
        lemma_band_any_mid(s, w as int, x0 as int, x1 as int, y0 as int, y1 as int, mid as int);
        if y0 >= y1 {
            assert(y == y0);
        }
    }
    let centroid: u32 = if total > 0 {
        let q: u64 = sum_y / total;
        proof {
            assert(q as int <= y as int) by (nonlinear_arith)
                requires
                    sum_y as int <= total as int * y as int,
                    total > 0,
                    q == sum_y / total,
            ;
            assert(q as int * 1_000_000 / h as int <= 1_000_000) by (nonlinear_arith)
                requires
                    q as int <= h as int,
                    h > 0,
            ;
        }
        (q * 1_000_000 / h as u64) as u32
    } else {
        500_000
    };
    let spread: u32 = if total > 0 {
        match first {
            Some(fy) => last - fy,
            None => 0,
        }
    } else {
        0
    };
    (win as u32, lose as u32, centroid, spread)
}


// ---------------------------------------------------------------------------
// Dark scroll behind the battle-start banner
// ---------------------------------------------------------------------------

/// Pixels of class `kind` in rows `[y0, y)`, columns `[x0, x1)`.
pub open spec fn rect_count(s: Seq<u8>, w: int, x0: int, x1: int, y0: int, y: int, kind: int) -> int
    decreases y - y0,
{
    if y <= y0 {
        0
    } else {
        rect_count(s, w, x0, x1, y0, y - 1, kind) + row_count(s, w, y - 1, x0, x1, kind)
    }
}

/// At least 40% of the in-buffer pixels of the battle-start area are dark.
pub open spec fn dark_scroll_spec(f: CapturedFrame) -> bool {
    let w = f.width as int;
    let h = f.height as int;
    let r = battle_start_roi_spec();
    let x0 = scale_spec(r.x_ratio as int, w);
    let y0 = scale_spec(r.y_ratio as int, h);
    let rw = scale_spec(r.w_ratio as int, w);
    let rh = scale_spec(r.h_ratio as int, h);
    let total = rect_count(f.bgra@, w, x0, x0 + rw, y0, y0 + rh, 1);
    let dark = rect_count(f.bgra@, w, x0, x0 + rw, y0, y0 + rh, 2);
    total > 0 && dark * 100 / total >= 40
}

/// The dark scroll of the battle-start banner is on screen: at least 40%
/// of the battle-start area has luminance below 30.
pub fn detect_dark_scroll(frame: &CapturedFrame) -> (r: bool)
    ensures
        r == dark_scroll_spec(*frame),
{
    let roi = battle_start_roi();
    let (x0, y0, rw, rh) = roi.to_pixels(frame.width, frame.height);
    let xe: u64 = x0 as u64 + rw as u64;
    let ye: u64 = y0 as u64 + rh as u64;
    let mut total: u64 = 0;
    let mut dark: u64 = 0;
    let mut y: u64 = y0 as u64;
    while y < ye
        invariant
            y0 <= y <= ye,
            ye == y0 + rh,
            xe == x0 + rw,
            total == rect_count(frame.bgra@, frame.width as int, x0 as int, xe as int, y0 as int, y as int, 1),
            dark == rect_count(frame.bgra@, frame.width as int, x0 as int, xe as int, y0 as int, y as int, 2),
            total <= (y - y0) as int * rw as int,
            dark <= (y - y0) as int * rw as int,
        decreases ye - y,
    {
        let t = count_row(&frame.bgra, frame.width, y, x0 as u64, xe, 1);
        let d = count_row(&frame.bgra, frame.width, y, x0 as u64, xe, 2);
        proof {
            let ghost k: int = (y - y0) as int;
            assert(k * rw as int + rw as int == (k + 1) * rw as int) by (nonlinear_arith);
            assert((k + 1) * rw as int <= u32::MAX as int * u32::MAX as int) by (nonlinear_arith)
                requires
                    k + 1 <= rh as int,
                    rh <= u32::MAX,
                    rw <= u32::MAX,
                    k >= 0,
            ;
        }
        total = total + t;
        dark = dark + d;
        y = y + 1;
    }
    total > 0 && (dark as u128) * 100 / (total as u128) >= 40
}

} // verus!
