pub mod image;
pub mod sad;
pub mod traits;

pub use image::LumaImage;
pub use traits::{ExecutionMode, MatchTemplateParams, MatcherAlgorithm, Rect};

use crate::arith::{ceil_div, lemma_ceil_div_bound, lemma_row_major_bound, lemma_row_major_split};
use sad::{window_fits, sad_error, sad_cutoff, running_min, min_sad, lemma_cutoff_keeps_row_minimum};
use vstd::prelude::*;

verus! {

/// Row-major source position of the `k`-th sample of a grid with `cols`
/// samples per row, taken every `step` pixels from an image `w` pixels wide.
pub open spec fn sample_index(k: int, cols: int, step: int, w: int) -> int {
    (k / cols) * step * w + (k % cols) * step
}

/// Every `step`-th pixel of every `step`-th row of a `w` by `h` raster,
/// starting at the top-left corner, in row-major order.
pub open spec fn sample_grid(pixels: Seq<u8>, w: int, h: int, step: int) -> Seq<u8> {
    let cols = ceil_div(w, step);
    let rows = ceil_div(h, step);
    Seq::new((rows * cols) as nat, |k: int| pixels[sample_index(k, cols, step, w)])
}

/// All positions that `sample_grid` reads lie below `len`.
pub open spec fn samples_within(len: int, w: int, h: int, step: int) -> bool {
    let cols = ceil_div(w, step);
    let rows = ceil_div(h, step);
    forall|k: int| 0 <= k < rows * cols ==> #[trigger] sample_index(k, cols, step, w) < len
}

/// Number of entries that are not zero.
pub open spec fn count_nonzero(s: Seq<u8>) -> nat
    decreases s.len(),
{
    if s.len() == 0 {
        0
    } else {
        count_nonzero(s.drop_last()) + if s.last() > 0 { 1nat } else { 0nat }
    }
}

/// A template reduced to the pixels that a sampled comparison reads.
pub struct PreparedTemplate {
    pub width: usize,
    pub data: Vec<u8>,
    pub mask: Option<Vec<u8>>,
    pub sampled_cols: usize,
    pub sampled_rows: usize,
}

impl PreparedTemplate {
    /// The sample grid and the mask, when present, both hold
    /// `sampled_rows * sampled_cols` values.
    pub open spec fn wf(&self) -> bool {
        &&& self.data@.len() == self.sampled_rows * self.sampled_cols
        &&& self.mask matches Some(m) ==> m@.len() == self.data@.len()
    }

    /// Samples `template` (and `mask`) every `step` pixels in both directions.
    pub fn new(template: &LumaImage, mask: Option<&LumaImage>, step: usize) -> (t: Self)
        requires
            template.wf(),
            step > 0,
            mask matches Some(m) ==> samples_within(
                m.data@.len() as int,
                template.width as int,
                template.height as int,
                step as int,
            ),
        ensures
            t.wf(),
            t.width == template.width,
            t.sampled_cols == ceil_div(template.width as int, step as int),
            t.sampled_rows == ceil_div(template.height as int, step as int),
            t.data@ == sample_grid(
                template.data@,
                template.width as int,
                template.height as int,
                step as int,
            ),
            mask is None ==> t.mask is None,
            mask matches Some(m) ==> (t.mask matches Some(md) && md@ == sample_grid(
                m.data@,
                template.width as int,
                template.height as int,
                step as int,
            )),
    {
        let w = template.width as usize;
        let h = template.height as usize;
        proof {
            lemma_ceil_div_bound(0, w as int, step as int);
            lemma_ceil_div_bound(0, h as int, step as int);
        }
        let sampled_cols = w / step + if w % step != 0 { 1usize } else { 0usize };
        let sampled_rows = h / step + if h % step != 0 { 1usize } else { 0usize };
        let n_pixels = template.data.len();
        proof {
            assert(sampled_rows * sampled_cols <= h * w) by (nonlinear_arith)
                requires sampled_rows <= h, sampled_cols <= w;
        }
        let tpl_raw = template.as_raw();
        let ghost grid = sample_grid(template.data@, w as int, h as int, step as int);
        let ghost mgrid = match mask {
            Some(m) => sample_grid(m.data@, w as int, h as int, step as int),
            None => Seq::empty(),
        };
        let mut data: Vec<u8> = Vec::new();
        let mut mask_data: Option<Vec<u8>> = match mask {
            Some(_) => Some(Vec::new()),
            None => None,
        };
        let mut r: usize = 0;
        while r < sampled_rows
            invariant
                template.wf(),
                tpl_raw@ == template.data@,
                n_pixels == tpl_raw@.len(),
                w == template.width,
                h == template.height,
                step > 0,
                sampled_cols == ceil_div(w as int, step as int),
                sampled_rows == ceil_div(h as int, step as int),
                grid == sample_grid(template.data@, w as int, h as int, step as int),
                mask matches Some(m) ==> (mgrid == sample_grid(
                    m.data@,
                    w as int,
                    h as int,
                    step as int,
                ) && samples_within(m.data@.len() as int, w as int, h as int, step as int)),
                r <= sampled_rows,
                data@ == grid.take(r * sampled_cols),
                mask is None ==> mask_data is None,
                mask is Some ==> (mask_data matches Some(md) && md@ == mgrid.take(r * sampled_cols)),
            decreases sampled_rows - r,
        {
            proof {
                lemma_ceil_div_bound(r as int, h as int, step as int);
            }
            let ty = r * step;
            let mut c: usize = 0;
            while c < sampled_cols
                invariant
                    template.wf(),
                    tpl_raw@ == template.data@,
                    n_pixels == tpl_raw@.len(),
                    w == template.width,
                    h == template.height,
                    step > 0,
                    sampled_cols == ceil_div(w as int, step as int),
                    sampled_rows == ceil_div(h as int, step as int),
                    grid == sample_grid(template.data@, w as int, h as int, step as int),
                    mask matches Some(m) ==> (mgrid == sample_grid(
                        m.data@,
                        w as int,
                        h as int,
                        step as int,
                    ) && samples_within(m.data@.len() as int, w as int, h as int, step as int)),
                    r < sampled_rows,
                    ty == r * step,
                    ty < h,
                    c <= sampled_cols,
                    data@ == grid.take(r * sampled_cols + c),
                    mask is None ==> mask_data is None,
                    mask is Some ==> (mask_data matches Some(md) && md@ == mgrid.take(
                        r * sampled_cols + c,
                    )),
                decreases sampled_cols - c,
            {
                proof {
                    lemma_ceil_div_bound(c as int, w as int, step as int);
                }
                let tx = c * step;
                let ghost k = r * sampled_cols + c;
                proof {
                    lemma_row_major_bound(ty as int, tx as int, w as int, h as int);
                    lemma_row_major_split(r as int, c as int, sampled_cols as int);
                    lemma_row_major_bound(r as int, c as int, sampled_cols as int, sampled_rows as int);
                    assert(sample_index(k, sampled_cols as int, step as int, w as int)
                        == ty * w + tx) by (nonlinear_arith)
                        requires k / (sampled_cols as int) == r, k % (sampled_cols as int) == c,
                            ty == r * step, tx == c * step;
                }
                let idx = ty * w + tx;
                data.push(tpl_raw[idx]);
                proof {
                    assert(data@ =~= grid.take(k + 1));
                }
                match mask {
                    Some(m) => {
                        proof {
                            assert(sample_index(k, sampled_cols as int, step as int, w as int)
                                < m.data@.len());
                        }
                        let mut md = mask_data.take().unwrap();
                        md.push(m.data[idx]);
                        proof {
                            assert(md@ =~= mgrid.take(k + 1));
                        }
                        mask_data = Some(md);
                    },
                    None => {},
                }
                c += 1;
            }
            proof {
                assert((r + 1) * sampled_cols == r * sampled_cols + sampled_cols) by (nonlinear_arith);
            }
            r += 1;
        }
        proof {
            assert(data@ =~= grid);
            if mask is Some {
                assert(mask_data->0@ =~= mgrid);
            }
        }
        PreparedTemplate { width: w, data, mask: mask_data, sampled_cols, sampled_rows }
    }

    /// The largest sum of absolute differences the template can produce:
    /// 255 for every compared sample.
    pub fn max_error(&self) -> (e: u64)
        requires
            self.wf(),
            self.sampled_rows * self.sampled_cols * 255 <= u64::MAX,
        ensures
            self.mask is None ==> e == self.sampled_rows * self.sampled_cols * 255,
            self.mask matches Some(m) ==> e == count_nonzero(m@) * 255,
    {
        match &self.mask {
            None => {
                let n = self.data.len();
                (self.sampled_rows * self.sampled_cols) as u64 * 255
            },
            Some(m) => {
                let mut count: usize = 0;
                let mut i: usize = 0;
                while i < m.len()
                    invariant
                        i <= m@.len(),
                        count == count_nonzero(m@.take(i as int)),
                        count <= i,
                    decreases m@.len() - i,
                {
                    proof {
                        assert(m@.take(i + 1).drop_last() =~= m@.take(i as int));
                    }
                    if m[i] > 0 {
                        count += 1;
                    }
                    i += 1;
                }
                proof {
                    assert(m@.take(m@.len() as int) =~= m@);
                }
                count as u64 * 255
            },
        }
    }
}


/// The checks made before a search: a non-empty template that fits inside
/// the image, and a mask, when there is one, of the template's size.
pub open spec fn search_is_valid(image: LumaImage, template: LumaImage, mask: Option<&LumaImage>) -> bool {
    &&& template.width > 0
    &&& template.height > 0
    &&& template.width <= image.width
    &&& template.height <= image.height
    &&& mask matches Some(m) ==> (m.width == template.width && m.height == template.height)
}

/// The sampling step actually used: a step of zero counts as one.
pub open spec fn effective_step(sample_step: u32) -> u32 {
    if sample_step == 0 { 1 } else { sample_step }
}

/// Checks that a search can run. Gives the number of template placements
/// per row and per column, and the sampling step.
pub fn validate(image: &LumaImage, template: &LumaImage, params: &MatchTemplateParams<'_>) -> (r:
    Option<(u32, u32, u32)>)
    ensures
        r is Some <==> search_is_valid(*image, *template, params.mask),
        r matches Some(v) ==> v == (
            (image.width - template.width + 1) as u32,
            (image.height - template.height + 1) as u32,
            effective_step(params.sample_step),
        ),
{
    let (tw, th) = template.dimensions();
    let (iw, ih) = image.dimensions();
    if tw == 0 || th == 0 || tw > iw || th > ih {
        return None;
    }
    match params.mask {
        Some(mask) => {
            let (mw, mh) = mask.dimensions();
            if mw != tw || mh != th {
                return None;
            }
        },
        None => {},
    }
    let step = if params.sample_step > 1 { params.sample_step } else { 1 };
    Some((iw - tw + 1, ih - th + 1, step))
}

/// Everything a search over all placements of a template needs.
pub struct MatchPlan {
    pub image_width: u32,
    pub image_height: u32,
    pub search_cols: u32,
    pub search_rows: u32,
    pub step: u32,
    pub tpl: PreparedTemplate,
    pub max_error: u64,
}

impl MatchPlan {
    /// Every placement the plan covers keeps all sampled rows inside an image
    /// of the planned size, and no error sum can overflow.
    pub open spec fn wf(&self) -> bool {
        &&& self.step > 0
        &&& self.tpl.wf()
        &&& self.tpl.data@.len() * 255 <= u64::MAX
        &&& forall|ox: int, oy: int|
            0 <= ox < self.search_cols && 0 <= oy < self.search_rows ==> #[trigger] window_fits(
                self.image_width * self.image_height,
                self.image_width as int,
                self.tpl,
                ox,
                oy,
                self.step as int,
            )
    }

    /// The errors along placement row `oy`, as a scan that keeps the best
    /// error of the row so far and cuts each computation off at it.
    /// `None` when `image` is not of the planned size or `oy` is past the
    /// last placement row.
    pub fn sad_row_errors(&self, image: &LumaImage, oy: u32) -> (r: Option<Vec<u64>>)
        requires
            self.wf(),
            image.wf(),
        ensures
            r is Some <==> (image.width == self.image_width && image.height == self.image_height
                && oy < self.search_rows),
            r matches Some(errs) ==> {
                &&& errs@.len() == self.search_cols
                &&& forall|k: int|
                    0 <= k < errs@.len() ==> errs@[k] == sad_cutoff(
                        image.data@,
                        image.width as int,
                        self.tpl,
                        k,
                        oy as int,
                        self.step as int,
                        #[trigger] running_min(errs@.take(k)),
                    )
                &&& running_min(errs@) == min_sad(
                    image.data@,
                    image.width as int,
                    self.tpl,
                    oy as int,
                    self.step as int,
                    self.search_cols as int,
                )
            },
    {
        if image.width != self.image_width || image.height != self.image_height || oy
            >= self.search_rows {
            return None;
        }
        let img = image.as_raw();
        let stride = image.width as usize;
        let step = self.step as usize;
        let cols = self.search_cols as usize;
        let mut errs: Vec<u64> = Vec::new();
        let mut best: u64 = u64::MAX;
        let mut ox: usize = 0;
        while ox < cols
            invariant
                self.wf(),
                image.wf(),
                img@ == image.data@,
                image.width == self.image_width,
                image.height == self.image_height,
                oy < self.search_rows,
                stride == image.width,
                step == self.step,
                cols == self.search_cols,
                ox <= cols,
                errs@.len() == ox,
                best == running_min(errs@),
                forall|k: int|
                    0 <= k < errs@.len() ==> errs@[k] == sad_cutoff(
                        image.data@,
                        image.width as int,
                        self.tpl,
                        k,
                        oy as int,
                        self.step as int,
                        #[trigger] running_min(errs@.take(k)),
                    ),
            decreases cols - ox,
        {
            proof {
                assert(window_fits(
                    self.image_width * self.image_height,
                    self.image_width as int,
                    self.tpl,
                    ox as int,
                    oy as int,
                    self.step as int,
                ));
            }
            let e = sad_error(img, stride, &self.tpl, ox, oy as usize, step, best);
            let ghost old_errs = errs@;
            errs.push(e);
            proof {
                assert(errs@.take(ox as int) =~= old_errs);
                assert(errs@.drop_last() =~= old_errs);
                assert forall|k: int| 0 <= k < errs@.len() implies errs@[k] == sad_cutoff(
                    image.data@,
                    image.width as int,
                    self.tpl,
                    k,
                    oy as int,
                    self.step as int,
                    #[trigger] running_min(errs@.take(k)),
                ) by {
                    if k < ox {
                        assert(errs@.take(k) =~= old_errs.take(k));
                    }
                }
            }
            if e < best {
                best = e;
            }
            ox += 1;
        }
        proof {
            lemma_cutoff_keeps_row_minimum(
                image.data@,
                image.width as int,
                self.tpl,
                oy as int,
                self.step as int,
                errs@,
            );
        }
        Some(errs)
    }
}

/// Every placement that `validate` admits keeps all sampled rows of the
/// prepared template inside the image.
pub proof fn lemma_placements_fit(
    image: LumaImage,
    tpl: PreparedTemplate,
    tw: int,
    th: int,
    step: int,
    ox: int,
    oy: int,
)
    requires
        image.wf(),
        step > 0,
        tpl.wf(),
        tpl.width == tw,
        tpl.sampled_cols == ceil_div(tw, step),
        tpl.sampled_rows == ceil_div(th, step),
        0 < tw <= image.width,
        0 < th <= image.height,
        0 <= ox <= image.width - tw,
        0 <= oy <= image.height - th,
    ensures
        window_fits(image.width * image.height, image.width as int, tpl, ox, oy, step),
{
    let iw = image.width as int;
    let ih = image.height as int;
    lemma_ceil_div_bound(0, tw, step);
    if tpl.sampled_cols > 0 {
        lemma_ceil_div_bound(tpl.sampled_cols - 1, tw, step);
    }
    assert forall|r: int| 0 <= r < tpl.sampled_rows implies oy + #[trigger] (r * step)
        <= usize::MAX && (oy + r * step) * iw + ox + tw <= iw * ih by {
        lemma_ceil_div_bound(r, th, step);
        let a = oy + r * step;
        assert(a < ih);
        assert(a * iw <= (ih - 1) * iw) by (nonlinear_arith) requires a < ih, iw > 0, a >= 0;
        assert((ih - 1) * iw + iw == iw * ih) by (nonlinear_arith);
    }
}

/// Every position a `step`-sampling of a `w` by `h` raster reads lies inside it.
pub proof fn lemma_samples_within(w: int, h: int, step: int)
    requires
        w >= 0,
        h >= 0,
        step > 0,
    ensures
        samples_within(w * h, w, h, step),
{
    let cols = ceil_div(w, step);
    let rows = ceil_div(h, step);
    assert forall|k: int| 0 <= k < rows * cols implies #[trigger] sample_index(k, cols, step, w)
        < w * h by {
        lemma_ceil_div_bound(0, w, step);
        assert(cols > 0) by (nonlinear_arith) requires 0 <= k < rows * cols, rows >= 0, cols >= 0;
        let r = k / cols;
        let c = k % cols;
        assert(0 <= r < rows && 0 <= c < cols) by (nonlinear_arith)
            requires 0 <= k < rows * cols, cols > 0, r == k / cols, c == k % cols;
        lemma_ceil_div_bound(r, h, step);
        lemma_ceil_div_bound(c, w, step);
        lemma_row_major_bound(r * step, c * step, w, h);
        assert(sample_index(k, cols, step, w) == (r * step) * w + c * step) by (nonlinear_arith)
            requires r == k / cols, c == k % cols;
    }
}

/// Checks the search as `validate` does and prepares everything a scan over
/// all placements needs. `None` exactly when `validate` refuses the search.
pub fn plan_match(image: &LumaImage, template: &LumaImage, params: &MatchTemplateParams<'_>) -> (r:
    Option<MatchPlan>)
    requires
        image.wf(),
        template.wf(),
        params.mask matches Some(m) ==> m.wf(),
        template.width * template.height * 255 <= u64::MAX,
    ensures
        r is Some <==> search_is_valid(*image, *template, params.mask),
        r matches Some(p) ==> {
            let step = effective_step(params.sample_step) as int;
            &&& p.wf()
            &&& p.image_width == image.width
            &&& p.image_height == image.height
            &&& p.search_cols == image.width - template.width + 1
            &&& p.search_rows == image.height - template.height + 1
            &&& p.step == step
            &&& p.tpl.width == template.width
            &&& p.tpl.sampled_cols == ceil_div(template.width as int, step)
            &&& p.tpl.sampled_rows == ceil_div(template.height as int, step)
            &&& p.tpl.data@ == sample_grid(
                template.data@,
                template.width as int,
                template.height as int,
                step,
            )
            &&& params.mask is None ==> p.tpl.mask is None
            &&& params.mask matches Some(m) ==> (p.tpl.mask matches Some(md) && md@
                == sample_grid(m.data@, template.width as int, template.height as int, step))
            &&& p.tpl.mask is None ==> p.max_error == p.tpl.sampled_rows * p.tpl.sampled_cols * 255
            &&& p.tpl.mask matches Some(md) ==> p.max_error == count_nonzero(md@) * 255
        },
{
    let (search_cols, search_rows, step) = match validate(image, template, params) {
        Some(v) => v,
        None => return None,
    };
    proof {
        lemma_ceil_div_bound(0, template.width as int, step as int);
        lemma_ceil_div_bound(0, template.height as int, step as int);
        let rows = ceil_div(template.height as int, step as int);
        let cols = ceil_div(template.width as int, step as int);
        assert(rows * cols * 255 <= template.width * template.height * 255) by (nonlinear_arith)
            requires rows <= template.height, cols <= template.width, rows >= 0, cols >= 0;
        lemma_samples_within(template.width as int, template.height as int, step as int);
    }
    let tpl = PreparedTemplate::new(template, params.mask, step as usize);
    let max_error = tpl.max_error();
    let plan = MatchPlan {
        image_width: image.width,
        image_height: image.height,
        search_cols,
        search_rows,
        step,
        tpl,
        max_error,
    };
    proof {
        assert forall|ox: int, oy: int|
            0 <= ox < plan.search_cols && 0 <= oy < plan.search_rows implies #[trigger] window_fits(
            plan.image_width * plan.image_height,
            plan.image_width as int,
            plan.tpl,
            ox,
            oy,
            plan.step as int,
        ) by {
            lemma_placements_fit(
                *image,
                plan.tpl,
                template.width as int,
                template.height as int,
                step as int,
                ox,
                oy,
            );
        }
    }
    Some(plan)
}

} // verus!
