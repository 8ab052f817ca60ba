//! An 8-bit grayscale raster held as plain values.

use vstd::prelude::*;

verus! {

/// A grayscale image stored row by row, one byte per pixel.
#[derive(Debug, Clone)]
pub struct LumaImage {
    pub width: u32,
    pub height: u32,
    pub data: Vec<u8>,
}

impl LumaImage {
    /// The pixel buffer holds exactly `width * height` bytes.
    pub open spec fn wf(&self) -> bool {
        self.data@.len() == self.width * self.height
    }

    /// The pixel at column `x` and row `y`.
    pub open spec fn pixel(&self, x: int, y: int) -> u8 {
        self.data@[y * self.width + x]
    }

    /// An all-black image of the given size.
    pub fn new(width: u32, height: u32) -> (img: Self)
        requires
            width * height <= usize::MAX,
        ensures
            img.wf(),
            img.width == width,
            img.height == height,
            forall|i: int| 0 <= i < img.data@.len() ==> img.data@[i] == 0,
    {
        let n: usize = width as usize * height as usize;
        let mut data: Vec<u8> = Vec::with_capacity(n);
        let mut i: usize = 0;
        while i < n
            invariant
                i <= n,
                data@.len() == i,
                forall|j: int| 0 <= j < i ==> data@[j] == 0,
            decreases n - i,
        {
            data.push(0);
            i += 1;
        }
        LumaImage { width, height, data }
    }

    /// Wraps a row-major buffer; fails when its length is not `width * height`.
    pub fn from_raw(width: u32, height: u32, data: Vec<u8>) -> (img: Option<Self>)
        requires
            width * height <= usize::MAX,
        ensures
            img is Some <==> data@.len() == width * height,
            img matches Some(i) ==> i.width == width && i.height == height && i.data@ == data@,
    {
        if data.len() == width as usize * height as usize {
            Some(LumaImage { width, height, data })
        } else {
            None
        }
    }

    /// `(width, height)`.
    pub fn dimensions(&self) -> (d: (u32, u32))
        ensures
            d == (self.width, self.height),
    {
        (self.width, self.height)
    }

    /// The raw pixel bytes.
    pub fn as_raw(&self) -> (s: &[u8])
        ensures
            s@ == self.data@,
    {
        self.data.as_slice()
    }
}


/// The window of `(x, y, width, height)` that lies inside a `iw` by `ih`
/// image: the corner is moved inside and the size shrunk to fit.
pub open spec fn clamp_window(iw: int, ih: int, x: int, y: int, width: int, height: int) -> (
    int,
    int,
    int,
    int,
) {
    let cx = if x <= iw { x } else { iw };
    let cy = if y <= ih { y } else { ih };
    let cw = if width <= iw - cx { width } else { iw - cx };
    let ch = if height <= ih - cy { height } else { ih - cy };
    (cx, cy, cw, ch)
}

/// The byte at column `x`, row `y` of a row-major raster `w` bytes wide.
pub open spec fn at(s: Seq<u8>, w: int, x: int, y: int) -> u8 {
    s[y * w + x]
}

/// `c` is a copy of the window `(x, y, w, h)` of `src`, clipped to `src`.
pub open spec fn is_crop_of(c: LumaImage, src: LumaImage, x: int, y: int, w: int, h: int) -> bool {
    let (cx, cy, cw, ch) = clamp_window(src.width as int, src.height as int, x, y, w, h);
    &&& c.wf()
    &&& c.width == cw
    &&& c.height == ch
    &&& forall|i: int, j: int| 0 <= i < cw && 0 <= j < ch ==> #[trigger] c.pixel(i, j) == src.pixel(cx + i, cy + j)
}

impl LumaImage {
    /// A copy of the part of the image inside the window at `(x, y)` of size
    /// `width` by `height`, clipped to the image.
    pub fn crop_imm(&self, x: u32, y: u32, width: u32, height: u32) -> (c: LumaImage)
        requires
            self.wf(),
        ensures
            is_crop_of(c, *self, x as int, y as int, width as int, height as int),
    {
        let n = self.data.len();
        let cx = if x <= self.width { x } else { self.width };
        let cy = if y <= self.height { y } else { self.height };
        let cw = if width <= self.width - cx { width } else { self.width - cx };
        let ch = if height <= self.height - cy { height } else { self.height - cy };
        let ghost iw = self.width as int;
        let ghost ih = self.height as int;
        proof {
            assert(ch * cw <= ih * iw) by (nonlinear_arith) requires ch <= ih, cw <= iw, ch >= 0, cw >= 0;
            assert(ih * iw == iw * ih) by (nonlinear_arith);
        }
        let mut data: Vec<u8> = Vec::new();
        let mut j: u32 = 0;
        while j < ch
            invariant
                self.wf(),
                n == self.data@.len(),
                iw == self.width,
                ih == self.height,
                cx + cw <= iw,
                cy + ch <= ih,
                ch * cw <= iw * ih,
                j <= ch,
                data@.len() == j * cw,
                forall|i2: int, j2: int|
                    0 <= i2 < cw && 0 <= j2 < j ==> #[trigger] at(data@, cw as int, i2, j2) == self.pixel(cx + i2, cy + j2),
            decreases ch - j,
        {
            let mut i: u32 = 0;
            while i < cw
                invariant
                    self.wf(),
                    n == self.data@.len(),
                    iw == self.width,
                    ih == self.height,
                    cx + cw <= iw,
                    cy + ch <= ih,
                    ch * cw <= iw * ih,
                    j < ch,
                    i <= cw,
                    data@.len() == j * cw + i,
                    forall|i2: int, j2: int|
                        0 <= i2 < cw && 0 <= j2 < j ==> #[trigger] at(data@, cw as int, i2, j2) == self.pixel(
                            cx + i2,
                            cy + j2,
                        ),
                    forall|i2: int| 0 <= i2 < i ==> #[trigger] at(data@, cw as int, i2, j as int) == self.pixel(cx + i2, cy + j),
                decreases cw - i,
            {
                proof {
                    crate::arith::lemma_row_major_bound((cy + j) as int, (cx + i) as int, iw, ih);
                }
                let idx = (cy + j) as usize * self.width as usize + (cx + i) as usize;
                let ghost before = data@;
                data.push(self.data[idx]);
                proof {
                    assert forall|i2: int, j2: int|
                        0 <= i2 < cw && 0 <= j2 < j implies #[trigger] at(data@, cw as int, i2, j2) == self.pixel(
                            cx + i2,
                            cy + j2,
                        ) by {
                        crate::arith::lemma_row_major_bound(j2, i2, cw as int, j as int);
                        assert(j * cw == cw * j) by (nonlinear_arith);
                        assert(at(data@, cw as int, i2, j2) == at(before, cw as int, i2, j2));
                    }
                    assert forall|i2: int| 0 <= i2 < i + 1 implies #[trigger] at(
                        data@,
                        cw as int,
                        i2,
                        j as int,
                    ) == self.pixel(cx + i2, cy + j) by {
                        if i2 < i {
                            assert(at(data@, cw as int, i2, j as int) == at(before, cw as int, i2, j as int));
                        }
                    }
                }
                i += 1;
            }
            proof {
                assert forall|i2: int, j2: int|
                    0 <= i2 < cw && 0 <= j2 < j + 1 implies #[trigger] at(data@, cw as int, i2, j2) == self.pixel(
                        cx + i2,
                        cy + j2,
                    ) by {
                    if j2 == j {
                        assert(at(data@, cw as int, i2, j as int) == self.pixel(cx + i2, cy + j));
                    }
                }
                assert(j * cw + cw == (j + 1) * cw) by (nonlinear_arith);
            }
            j += 1;
        }
        let c = LumaImage { width: cw, height: ch, data };
        proof {
            assert(data@.len() == cw * ch) by (nonlinear_arith) requires data@.len() == ch * cw;
            assert forall|i: int, j: int| 0 <= i < cw && 0 <= j < ch implies #[trigger] c.pixel(i, j)
                == self.pixel(cx + i, cy + j) by {
                assert(at(data@, cw as int, i, j) == self.pixel(cx + i, cy + j));
            }
        }
        c
    }
}

} // verus!
