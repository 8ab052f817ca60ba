//! Sum of absolute differences between a prepared template and an image window.

use super::PreparedTemplate;
use vstd::prelude::*;

verus! {

/// `|a - b|`.
pub open spec fn abs_diff(a: u8, b: u8) -> nat {
    if a >= b { (a - b) as nat } else { (b - a) as nat }
}

/// Position in the image of sample `(r, c)` of a template placed at `(ox, oy)`.
pub open spec fn window_index(stride: int, ox: int, oy: int, step: int, r: int, c: int) -> int {
    (oy + r * step) * stride + ox + c * step
}

/// Every row of a template placed at `(ox, oy)` lies inside the image, as the
/// slices of the row loop need.
pub open spec fn window_fits(
    img_len: int,
    stride: int,
    tpl: PreparedTemplate,
    ox: int,
    oy: int,
    step: int,
) -> bool {
    &&& step > 0
    &&& tpl.wf()
    &&& tpl.sampled_cols > 0 ==> (tpl.sampled_cols - 1) * step < tpl.width
    &&& forall|r: int|
        0 <= r < tpl.sampled_rows ==> oy + #[trigger] (r * step) <= usize::MAX && (oy + r * step)
            * stride + ox + tpl.width <= img_len
}

/// Contribution of sample `(r, c)`: its absolute difference, or zero where
/// the mask hides it.
pub open spec fn sample_term(
    img: Seq<u8>,
    stride: int,
    tpl: PreparedTemplate,
    ox: int,
    oy: int,
    step: int,
    r: int,
    c: int,
) -> nat {
    let k = r * tpl.sampled_cols + c;
    if tpl.mask is Some && tpl.mask->0@[k] == 0 {
        0
    } else {
        abs_diff(img[window_index(stride, ox, oy, step, r, c)], tpl.data@[k])
    }
}

/// Sum of the first `n` terms of sample row `r`.
pub open spec fn row_error(
    img: Seq<u8>,
    stride: int,
    tpl: PreparedTemplate,
    ox: int,
    oy: int,
    step: int,
    r: int,
    n: int,
) -> nat
    decreases n,
{
    if n <= 0 {
        0
    } else {
        row_error(img, stride, tpl, ox, oy, step, r, n - 1) + sample_term(
            img,
            stride,
            tpl,
            ox,
            oy,
            step,
            r,
            n - 1,
        )
    }
}

/// Sum over the first `nrows` sample rows.
pub open spec fn prefix_error(
    img: Seq<u8>,
    stride: int,
    tpl: PreparedTemplate,
    ox: int,
    oy: int,
    step: int,
    nrows: int,
) -> nat
    decreases nrows,
{
    if nrows <= 0 {
        0
    } else {
        prefix_error(img, stride, tpl, ox, oy, step, nrows - 1) + row_error(
            img,
            stride,
            tpl,
            ox,
            oy,
            step,
            nrows - 1,
            tpl.sampled_cols as int,
        )
    }
}

/// The full sum of absolute differences of the template placed at `(ox, oy)`.
pub open spec fn sad(
    img: Seq<u8>,
    stride: int,
    tpl: PreparedTemplate,
    ox: int,
    oy: int,
    step: int,
) -> nat {
    prefix_error(img, stride, tpl, ox, oy, step, tpl.sampled_rows as int)
}

/// Row-by-row accumulation from row `from` on that stops after the first row
/// whose running total reaches `best`.
pub open spec fn sad_scan(
    img: Seq<u8>,
    stride: int,
    tpl: PreparedTemplate,
    ox: int,
    oy: int,
    step: int,
    best: int,
    from: int,
) -> nat
    decreases tpl.sampled_rows - from,
{
    if from >= tpl.sampled_rows {
        prefix_error(img, stride, tpl, ox, oy, step, tpl.sampled_rows as int)
    } else if prefix_error(img, stride, tpl, ox, oy, step, from + 1) >= best {
        prefix_error(img, stride, tpl, ox, oy, step, from + 1)
    } else {
        sad_scan(img, stride, tpl, ox, oy, step, best, from + 1)
    }
}

/// The value an error computation with cut-off `best` returns.
pub open spec fn sad_cutoff(
    img: Seq<u8>,
    stride: int,
    tpl: PreparedTemplate,
    ox: int,
    oy: int,
    step: int,
    best: int,
) -> nat {
    sad_scan(img, stride, tpl, ox, oy, step, best, 0)
}

proof fn lemma_row_error_bound(
    img: Seq<u8>,
    stride: int,
    tpl: PreparedTemplate,
    ox: int,
    oy: int,
    step: int,
    r: int,
    n: int,
)
    ensures
        row_error(img, stride, tpl, ox, oy, step, r, n) <= 255 * (if n < 0 { 0 } else { n }),
    decreases n,
{
    if n > 0 {
        lemma_row_error_bound(img, stride, tpl, ox, oy, step, r, n - 1);
    }
}

proof fn lemma_prefix_error_bound(
    img: Seq<u8>,
    stride: int,
    tpl: PreparedTemplate,
    ox: int,
    oy: int,
    step: int,
    nrows: int,
)
    requires
        0 <= nrows,
    ensures
        prefix_error(img, stride, tpl, ox, oy, step, nrows) <= 255 * tpl.sampled_cols * nrows,
    decreases nrows,
{
    if nrows > 0 {
        lemma_prefix_error_bound(img, stride, tpl, ox, oy, step, nrows - 1);
        lemma_row_error_bound(img, stride, tpl, ox, oy, step, nrows - 1, tpl.sampled_cols as int);
        let c = tpl.sampled_cols as int;
        assert(255 * c * (nrows - 1) + 255 * c == 255 * c * nrows) by (nonlinear_arith);
    }
}

proof fn lemma_prefix_error_monotone(
    img: Seq<u8>,
    stride: int,
    tpl: PreparedTemplate,
    ox: int,
    oy: int,
    step: int,
    a: int,
    b: int,
)
    requires
        0 <= a <= b,
    ensures
        prefix_error(img, stride, tpl, ox, oy, step, a) <= prefix_error(
            img,
            stride,
            tpl,
            ox,
            oy,
            step,
            b,
        ),
    decreases b - a,
{
    if a < b {
        lemma_prefix_error_monotone(img, stride, tpl, ox, oy, step, a, b - 1);
    }
}

/// What a cut-off scan returns: the full sum when that stays below `best`,
/// otherwise a partial sum that is at least `best` and at most the full sum.
pub proof fn lemma_sad_scan_bounds(
    img: Seq<u8>,
    stride: int,
    tpl: PreparedTemplate,
    ox: int,
    oy: int,
    step: int,
    best: int,
    from: int,
)
    requires
        0 <= from <= tpl.sampled_rows,
        prefix_error(img, stride, tpl, ox, oy, step, from) < best || from == 0,
    ensures
        ({
            let s = sad(img, stride, tpl, ox, oy, step);
            let v = sad_scan(img, stride, tpl, ox, oy, step, best, from);
            &&& s < best ==> v == s
            &&& s >= best ==> best <= v <= s
        }),
    decreases tpl.sampled_rows - from,
{
    let rows = tpl.sampled_rows as int;
    if from < rows {
        lemma_prefix_error_monotone(img, stride, tpl, ox, oy, step, from + 1, rows);
        if prefix_error(img, stride, tpl, ox, oy, step, from + 1) < best {
            lemma_sad_scan_bounds(img, stride, tpl, ox, oy, step, best, from + 1);
        }
    } else {
        if from == 0 && rows == 0 {
        }
    }
}

/// Sum of absolute differences of an unmasked template placed at `(ox, oy)`,
/// stopping after the first row at which the total reaches `best_error`.
fn sad_normal_unmasked(
    img: &[u8],
    img_stride: usize,
    tpl: &PreparedTemplate,
    ox: usize,
    oy: usize,
    step: usize,
    best_error: u64,
) -> (e: u64)
    requires
        tpl.mask is None,
        window_fits(img@.len() as int, img_stride as int, *tpl, ox as int, oy as int, step as int),
        tpl.data@.len() * 255 <= u64::MAX,
    ensures
        e == sad_cutoff(
            img@,
            img_stride as int,
            *tpl,
            ox as int,
            oy as int,
            step as int,
            best_error as int,
        ),
{
    let ghost t = *tpl;
    let ghost (gs, gox, goy, gstep) = (img_stride as int, ox as int, oy as int, step as int);
    let rows = tpl.sampled_rows;
    let cols = tpl.sampled_cols;
    let img_len = img.len();
    let data_len = tpl.data.len();
    let mut error: u64 = 0;
    let mut row: usize = 0;
    while row < rows
        invariant
            img_len == img@.len(),
            data_len == tpl.data@.len(),
            tpl.mask is None,
            window_fits(img@.len() as int, gs, t, gox, goy, gstep),
            tpl.data@.len() * 255 <= u64::MAX,
            t == *tpl,
            gs == img_stride,
            gox == ox,
            goy == oy,
            gstep == step,
            rows == tpl.sampled_rows,
            cols == tpl.sampled_cols,
            row <= rows,
            error == prefix_error(img@, gs, t, gox, goy, gstep, row as int),
            sad_cutoff(img@, gs, t, gox, goy, gstep, best_error as int) == sad_scan(
                img@,
                gs,
                t,
                gox,
                goy,
                gstep,
                best_error as int,
                row as int,
            ),
        decreases rows - row,
    {
        proof {
            assert(oy + row * step <= usize::MAX && (oy + row * step) * img_stride + ox + tpl.width
                <= img@.len());
        }
        let img_row_start = (oy + row * step) * img_stride + ox;
        proof {
            assert(row * cols + cols <= rows * cols) by (nonlinear_arith)
                requires row < rows;
        }
        let tpl_row_start = row * cols;
        proof {
            lemma_prefix_error_bound(img@, gs, t, gox, goy, gstep, row as int);
            lemma_row_error_bound(img@, gs, t, gox, goy, gstep, row as int, cols as int);
        }
        let mut col: usize = 0;
        while col < cols
            invariant
                img_len == img@.len(),
                data_len == tpl.data@.len(),
                tpl.mask is None,
                window_fits(img@.len() as int, gs, t, gox, goy, gstep),
                tpl.data@.len() * 255 <= u64::MAX,
                t == *tpl,
                gs == img_stride,
                gox == ox,
                goy == oy,
                gstep == step,
                rows == tpl.sampled_rows,
                cols == tpl.sampled_cols,
                row < rows,
                col <= cols,
                img_row_start == (oy + row * step) * img_stride + ox,
                img_row_start + tpl.width <= img@.len(),
                tpl_row_start == row * cols,
                tpl_row_start + cols <= tpl.data@.len(),
                error == prefix_error(img@, gs, t, gox, goy, gstep, row as int) + row_error(
                    img@,
                    gs,
                    t,
                    gox,
                    goy,
                    gstep,
                    row as int,
                    col as int,
                ),
                prefix_error(img@, gs, t, gox, goy, gstep, row as int) <= 255 * cols * row,
            decreases cols - col,
        {
            proof {
                assert(col * step <= (cols - 1) * step) by (nonlinear_arith)
                    requires col < cols, step > 0;
                lemma_row_error_bound(img@, gs, t, gox, goy, gstep, row as int, col as int);
                assert(255 * cols * row + 255 * col + 255 <= 255 * (rows * cols)) by (nonlinear_arith)
                    requires col < cols, row < rows;
            }
            let i = img[img_row_start + col * step];
            let tv = tpl.data[tpl_row_start + col];
            let d: u64 = if i >= tv { (i - tv) as u64 } else { (tv - i) as u64 };
            error = error + d;
            col += 1;
        }
        row += 1;
        if error >= best_error {
            return error;
        }
    }
    error
}

/// Sum of absolute differences over the samples the mask keeps, stopping after
/// the first row at which the total reaches `best_error`.
fn sad_normal_masked(
    img: &[u8],
    img_stride: usize,
    tpl: &PreparedTemplate,
    mask: &[u8],
    ox: usize,
    oy: usize,
    step: usize,
    best_error: u64,
) -> (e: u64)
    requires
        tpl.mask matches Some(m) && m@ == mask@,
        window_fits(img@.len() as int, img_stride as int, *tpl, ox as int, oy as int, step as int),
        tpl.data@.len() * 255 <= u64::MAX,
    ensures
        e == sad_cutoff(
            img@,
            img_stride as int,
            *tpl,
            ox as int,
            oy as int,
            step as int,
            best_error as int,
        ),
{
    let ghost t = *tpl;
    let ghost (gs, gox, goy, gstep) = (img_stride as int, ox as int, oy as int, step as int);
    let rows = tpl.sampled_rows;
    let cols = tpl.sampled_cols;
    let img_len = img.len();
    let data_len = tpl.data.len();
    let mut error: u64 = 0;
    let mut row: usize = 0;
    while row < rows
        invariant
            img_len == img@.len(),
            data_len == tpl.data@.len(),
            tpl.mask matches Some(m) && m@ == mask@,
            window_fits(img@.len() as int, gs, t, gox, goy, gstep),
            tpl.data@.len() * 255 <= u64::MAX,
            t == *tpl,
            gs == img_stride,
            gox == ox,
            goy == oy,
            gstep == step,
            rows == tpl.sampled_rows,
            cols == tpl.sampled_cols,
            row <= rows,
            error == prefix_error(img@, gs, t, gox, goy, gstep, row as int),
            sad_cutoff(img@, gs, t, gox, goy, gstep, best_error as int) == sad_scan(
                img@,
                gs,
                t,
                gox,
                goy,
                gstep,
                best_error as int,
                row as int,
            ),
        decreases rows - row,
    {
        proof {
            assert(oy + row * step <= usize::MAX && (oy + row * step) * img_stride + ox + tpl.width
                <= img@.len());
        }
        let img_row_start = (oy + row * step) * img_stride + ox;
        proof {
            assert(row * cols + cols <= rows * cols) by (nonlinear_arith)
                requires row < rows;
        }
        let tpl_row_start = row * cols;
        proof {
            lemma_prefix_error_bound(img@, gs, t, gox, goy, gstep, row as int);
            lemma_row_error_bound(img@, gs, t, gox, goy, gstep, row as int, cols as int);
        }
        let mut col: usize = 0;
        while col < cols
            invariant
                img_len == img@.len(),
                data_len == tpl.data@.len(),
                tpl.mask matches Some(m) && m@ == mask@,
                window_fits(img@.len() as int, gs, t, gox, goy, gstep),
                tpl.data@.len() * 255 <= u64::MAX,
                t == *tpl,
                gs == img_stride,
                gox == ox,
                goy == oy,
                gstep == step,
                rows == tpl.sampled_rows,
                cols == tpl.sampled_cols,
                row < rows,
                col <= cols,
                img_row_start == (oy + row * step) * img_stride + ox,
                img_row_start + tpl.width <= img@.len(),
                tpl_row_start == row * cols,
                tpl_row_start + cols <= tpl.data@.len(),
                error == prefix_error(img@, gs, t, gox, goy, gstep, row as int) + row_error(
                    img@,
                    gs,
                    t,
                    gox,
                    goy,
                    gstep,
                    row as int,
                    col as int,
                ),
                prefix_error(img@, gs, t, gox, goy, gstep, row as int) <= 255 * cols * row,
            decreases cols - col,
        {
            proof {
                assert(col * step <= (cols - 1) * step) by (nonlinear_arith)
                    requires col < cols, step > 0;
                lemma_row_error_bound(img@, gs, t, gox, goy, gstep, row as int, col as int);
                assert(255 * cols * row + 255 * col + 255 <= 255 * (rows * cols)) by (nonlinear_arith)
                    requires col < cols, row < rows;
            }
            if mask[tpl_row_start + col] > 0 {
                let i = img[img_row_start + col * step];
                let tv = tpl.data[tpl_row_start + col];
                let d: u64 = if i >= tv { (i - tv) as u64 } else { (tv - i) as u64 };
                error = error + d;
            }
            col += 1;
        }
        row += 1;
        if error >= best_error {
            return error;
        }
    }
    error
}

/// Sum of absolute differences between `tpl` and the image window at
/// `(ox, oy)`, over the samples the mask keeps. Accumulation stops after the
/// first sample row at which the running total reaches `best_error`: the
/// result is then a partial sum, at least `best_error` and at most the full
/// sum. When the full sum is below `best_error` it is returned exactly.
pub fn sad_error(
    img: &[u8],
    img_stride: usize,
    tpl: &PreparedTemplate,
    ox: usize,
    oy: usize,
    step: usize,
    best_error: u64,
) -> (e: u64)
    requires
        window_fits(img@.len() as int, img_stride as int, *tpl, ox as int, oy as int, step as int),
        tpl.data@.len() * 255 <= u64::MAX,
    ensures
        e == sad_cutoff(
            img@,
            img_stride as int,
            *tpl,
            ox as int,
            oy as int,
            step as int,
            best_error as int,
        ),
        sad(img@, img_stride as int, *tpl, ox as int, oy as int, step as int) < best_error ==> e
            == sad(img@, img_stride as int, *tpl, ox as int, oy as int, step as int),
        sad(img@, img_stride as int, *tpl, ox as int, oy as int, step as int) >= best_error ==> (
        best_error <= e <= sad(img@, img_stride as int, *tpl, ox as int, oy as int, step as int)),
{
    proof {
        lemma_sad_scan_bounds(
            img@,
            img_stride as int,
            *tpl,
            ox as int,
            oy as int,
            step as int,
            best_error as int,
            0,
        );
    }
    match &tpl.mask {
        Some(m) => sad_normal_masked(img, img_stride, tpl, m.as_slice(), ox, oy, step, best_error),
        None => sad_normal_unmasked(img, img_stride, tpl, ox, oy, step, best_error),
    }
}

} // verus!

verus! {

/// Smallest value of a sequence of errors, `u64::MAX` when it is empty.
pub open spec fn running_min(s: Seq<u64>) -> int
    decreases s.len(),
{
    if s.len() == 0 {
        u64::MAX as int
    } else {
        let m = running_min(s.drop_last());
        if (s.last() as int) < m { s.last() as int } else { m }
    }
}

/// Smallest full error among placements `(0, oy) .. (n - 1, oy)`, `u64::MAX`
/// when there is none below it.
pub open spec fn min_sad(
    img: Seq<u8>,
    stride: int,
    tpl: PreparedTemplate,
    oy: int,
    step: int,
    n: int,
) -> int
    decreases n,
{
    if n <= 0 {
        u64::MAX as int
    } else {
        let m = min_sad(img, stride, tpl, oy, step, n - 1);
        let s = sad(img, stride, tpl, n - 1, oy, step) as int;
        if s < m { s } else { m }
    }
}

/// Cutting an error computation short once it reaches the best error seen so
/// far in the row never changes the row's minimum: the smallest value of the
/// errors returned along a row equals the smallest full error in it.
pub proof fn lemma_cutoff_keeps_row_minimum(
    img: Seq<u8>,
    stride: int,
    tpl: PreparedTemplate,
    oy: int,
    step: int,
    errs: Seq<u64>,
)
    requires
        forall|k: int|
            0 <= k < errs.len() ==> errs[k] == sad_cutoff(
                img,
                stride,
                tpl,
                k,
                oy,
                step,
                #[trigger] running_min(errs.take(k)),
            ),
    ensures
        running_min(errs) == min_sad(img, stride, tpl, oy, step, errs.len() as int),
    decreases errs.len(),
{
    if errs.len() > 0 {
        let n = errs.len() - 1;
        let pre = errs.drop_last();
        assert forall|k: int| 0 <= k < pre.len() implies pre[k] == sad_cutoff(
            img,
            stride,
            tpl,
            k,
            oy,
            step,
            #[trigger] running_min(pre.take(k)),
        ) by {
            assert(pre.take(k) =~= errs.take(k));
            assert(errs[k] == sad_cutoff(img, stride, tpl, k, oy, step, running_min(errs.take(k))));
        }
        lemma_cutoff_keeps_row_minimum(img, stride, tpl, oy, step, pre);
        assert(errs.take(n) =~= pre);
        assert(errs[n] == sad_cutoff(img, stride, tpl, n, oy, step, running_min(errs.take(n))));
        lemma_sad_scan_bounds(img, stride, tpl, n, oy, step, running_min(pre), 0);
    }
}

} // verus!
