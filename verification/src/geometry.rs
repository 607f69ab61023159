use vstd::prelude::*;

verus! {

/// Fixed-point unit of ratios, coordinates and confidences: one millionth.
pub const UNIT: u32 = 1_000_000;

/// `ratio` (in millionths) of `dim`, rounded down and saturated at
/// `u32::MAX`.
pub open spec fn scale_spec(ratio: int, dim: int) -> int {
    let v = ratio * dim / (UNIT as int);
    if v > u32::MAX as int { u32::MAX as int } else { v }
}

proof fn lemma_scale_bounds(ratio: u32, dim: u32)
    ensures
        0 <= ratio as int * dim as int <= u32::MAX as int * u32::MAX as int,
        ratio <= UNIT ==> ratio as int * dim as int / (UNIT as int) <= dim as int,
{
    assert(0 <= ratio as int * dim as int <= u32::MAX as int * u32::MAX as int) by (nonlinear_arith);
    if ratio <= UNIT {
        assert(ratio as int * dim as int <= UNIT as int * dim as int) by (nonlinear_arith)
            requires
                ratio <= UNIT,
        ;
        assert((UNIT as int * dim as int) / (UNIT as int) == dim as int) by (nonlinear_arith);
        assert(ratio as int * dim as int / (UNIT as int) <= (UNIT as int * dim as int) / (UNIT as int))
            by (nonlinear_arith)
            requires
                ratio as int * dim as int <= UNIT as int * dim as int,
        ;
    }
}

/// Pixel position or extent given by `ratio` of `dim`.
pub fn scale(ratio: u32, dim: u32) -> (v: u32)
    ensures
        v == scale_spec(ratio as int, dim as int),
        ratio <= UNIT ==> v <= dim,
{
    proof {
        lemma_scale_bounds(ratio, dim);
    }
    let p: u64 = ratio as u64 * dim as u64;
    let q: u64 = p / 1_000_000;
    if q > 0xffff_ffff {
        u32::MAX
    } else {
        q as u32
    }
}

/// A region of interest given as ratios (millionths) of the frame size.
#[derive(Clone, Copy)]
pub struct Roi {
    pub x_ratio: u32,
    pub y_ratio: u32,
    pub w_ratio: u32,
    pub h_ratio: u32,
}

impl Roi {
    /// The pixel rectangle `(x, y, w, h)` of this region in a frame of
    /// `frame_w` x `frame_h`.
    pub fn to_pixels(&self, frame_w: u32, frame_h: u32) -> (r: (u32, u32, u32, u32))
        ensures
            r.0 == scale_spec(self.x_ratio as int, frame_w as int),
            r.1 == scale_spec(self.y_ratio as int, frame_h as int),
            r.2 == scale_spec(self.w_ratio as int, frame_w as int),
            r.3 == scale_spec(self.h_ratio as int, frame_h as int),
    {
        (scale(self.x_ratio, frame_w), scale(self.y_ratio, frame_h), scale(self.w_ratio, frame_w),
            scale(self.h_ratio, frame_h))
    }
}


/// A region that lies within the frame in ratios lies within it in pixels:
/// its right and bottom edges stay inside the frame.
pub proof fn law_region_inside_frame(roi: Roi, frame_w: u32, frame_h: u32)
    requires
        roi.x_ratio + roi.w_ratio <= UNIT,
        roi.y_ratio + roi.h_ratio <= UNIT,
    ensures
        scale_spec(roi.x_ratio as int, frame_w as int) + scale_spec(roi.w_ratio as int, frame_w as int) <= frame_w,
        scale_spec(roi.y_ratio as int, frame_h as int) + scale_spec(roi.h_ratio as int, frame_h as int) <= frame_h,
{
    lemma_scale_sum(roi.x_ratio as int, roi.w_ratio as int, frame_w as int);
    lemma_scale_sum(roi.y_ratio as int, roi.h_ratio as int, frame_h as int);
}

proof fn lemma_scale_sum(a: int, b: int, d: int)
    requires
        0 <= a,
        0 <= b,
        a + b <= UNIT,
        0 <= d <= u32::MAX,
    ensures
        scale_spec(a, d) + scale_spec(b, d) <= d,
{
    let u = UNIT as int;
    assert(a * d / u + b * d / u <= (a + b) * d / u) by (nonlinear_arith)
        requires
            0 <= a,
            0 <= b,
            0 <= d,
            u > 0,
    ;
    assert((a + b) * d / u <= d) by (nonlinear_arith)
        requires
            0 <= a + b <= u,
            0 <= d,
            u > 0,
    ;
    assert(a * d / u <= d) by (nonlinear_arith)
        requires
            0 <= a <= u,
            0 <= d,
            u > 0,
    ;
    assert(b * d / u <= d) by (nonlinear_arith)
        requires
            0 <= b <= u,
            0 <= d,
            u > 0,
    ;
}

} // verus!
