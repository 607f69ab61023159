use vstd::prelude::*;

verus! {

/// A captured frame: BGRA8 pixels, row-major, `width * height * 4` bytes
/// when complete.
#[derive(Clone, Debug)]
pub struct CapturedFrame {
    pub bgra: Vec<u8>,
    pub width: u32,
    pub height: u32,
}

/// The crop of `bgra` at (`x`, `y`) of size `w` x `h`: the rows that lie
/// wholly inside the buffer, in order; a row that runs past the end of the
/// buffer is left out.
pub open spec fn crop_rows(bgra: Seq<u8>, full_width: int, x: int, y: int, w: int, h: int) -> Seq<u8>
    decreases h,
{
    if h <= 0 {
        Seq::empty()
    } else {
        let prev = crop_rows(bgra, full_width, x, y, w, h - 1);
        let start = ((y + h - 1) * full_width + x) * 4;
        let end = start + w * 4;
        if end <= bgra.len() {
            prev + bgra.subrange(start, end)
        } else {
            prev
        }
    }
}

proof fn lemma_product_fits(a: int, b: int)
    requires
        0 <= a <= 0x2_0000_0000,
        0 <= b <= 0x1_0000_0000,
    ensures
        0 <= a * b <= 0x2_0000_0000_0000_0000,
{
    assert(0 <= a * b <= 0x2_0000_0000 * 0x1_0000_0000) by (nonlinear_arith)
        requires
            0 <= a <= 0x2_0000_0000,
            0 <= b <= 0x1_0000_0000,
    ;
}

/// Cuts the rectangle (`x`, `y`, `w`, `h`) out of a BGRA8 buffer whose
/// rows are `full_width` pixels long.
pub fn crop_bgra(bgra: &[u8], full_width: u32, x: u32, y: u32, w: u32, h: u32) -> (out: Vec<u8>)
    ensures
        out@ == crop_rows(bgra@, full_width as int, x as int, y as int, w as int, h as int),
{
    let mut out: Vec<u8> = Vec::new();
    let mut row: u32 = 0;
    while row < h
        invariant
            row <= h,
            out@ == crop_rows(bgra@, full_width as int, x as int, y as int, w as int, row as int),
        decreases h - row,
    {
        let src_y: u64 = y as u64 + row as u64;
        proof {
            lemma_product_fits(src_y as int, full_width as int);
        }
        let start: u128 = (src_y as u128 * full_width as u128 + x as u128) * 4;
        let end: u128 = start + w as u128 * 4;
        if end <= bgra.len() as u128 {
            let s: usize = start as usize;
            let e: usize = end as usize;
            let mut i: usize = s;
            let ghost before = out@;
            while i < e
                invariant
                    s <= i <= e,
                    e <= bgra@.len(),
                    out@ == before + bgra@.subrange(s as int, i as int),
                decreases e - i,
            {
                out.push(bgra[i]);
                i = i + 1;
                proof {
                    assert(bgra@.subrange(s as int, i as int) =~= bgra@.subrange(s as int, i - 1 as int).push(bgra@[i - 1]));
                }
            }
        }
        row = row + 1;
    }
    out
}

} // verus!
