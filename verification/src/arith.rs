//! Small arithmetic facts shared by the pixel-indexing code.

use vstd::prelude::*;

verus! {

/// Number of samples taken from `len` items when every `step`-th one is kept,
/// starting with the first: the ceiling of `len / step`.
pub open spec fn ceil_div(len: int, step: int) -> int {
    if len % step == 0 { len / step } else { len / step + 1 }
}

/// A sample index `r` is in range exactly when its position `r * step` is.
pub proof fn lemma_ceil_div_bound(r: int, len: int, step: int)
    requires
        step > 0,
        len >= 0,
        r >= 0,
    ensures
        r < ceil_div(len, step) <==> r * step < len,
        ceil_div(len, step) <= len,
        ceil_div(len, step) >= 0,
        len > 0 ==> ceil_div(len, step) > 0,
{
    let q = len / step;
    let m = len % step;
    assert(len == q * step + m && 0 <= m < step) by (nonlinear_arith)
        requires step > 0, len >= 0, q == len / step, m == len % step;
    assert(q >= 0) by (nonlinear_arith) requires step > 0, len >= 0, q == len / step;
    if m == 0 {
        assert(r < q <==> r * step < len) by (nonlinear_arith)
            requires len == q * step, step > 0, r >= 0, q >= 0;
        assert(q <= len) by (nonlinear_arith) requires len == q * step, step > 0, q >= 0;
        assert(len > 0 ==> q > 0) by (nonlinear_arith) requires len == q * step, step > 0, q >= 0;
    } else {
        assert(r < q + 1 <==> r * step < len) by (nonlinear_arith)
            requires len == q * step + m, 0 < m < step, r >= 0, q >= 0;
        assert(q + 1 <= len) by (nonlinear_arith)
            requires len == q * step + m, 0 < m < step, q >= 0;
    }
}

/// Row-major position `r * w + c` of a cell that lies inside an `h` by `w` grid
/// is inside the grid's storage.
pub proof fn lemma_row_major_bound(r: int, c: int, w: int, h: int)
    requires
        0 <= r < h,
        0 <= c < w,
    ensures
        0 <= r * w + c < h * w,
        r * w + c + 1 <= h * w,
        h * w == w * h,
{
    assert(0 <= r * w + c < h * w) by (nonlinear_arith)
        requires 0 <= r < h, 0 <= c < w;
    assert(h * w == w * h) by (nonlinear_arith);
}

/// Splitting a row-major position back into its row and column.
pub proof fn lemma_row_major_split(r: int, c: int, w: int)
    requires
        0 <= c < w,
    ensures
        (r * w + c) / w == r,
        (r * w + c) % w == c,
{
    vstd::arithmetic::div_mod::lemma_fundamental_div_mod_converse(r * w + c, w, r, c);
}


/// `usize` is wide enough for sums of a few 32-bit values, as on the 64-bit
/// targets the overlay runs on.
pub open spec fn wide_usize() -> bool {
    usize::MAX >= 0x4_0000_0000
}

} // verus!
