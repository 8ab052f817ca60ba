//! Template and price assets: mask clean-up, cropping and price lookups.

use super::types::{popularity_key, Popularity};
use crate::matchers::image::{is_crop_of, LumaImage};
use crate::text::{chars_of, contains, lowercase, seq_contains, to_lowercase};
use vstd::prelude::*;

verus! {

/// `(x, y)` is a set pixel of `m`.
pub open spec fn nonzero_at(m: LumaImage, x: int, y: int) -> bool {
    0 <= x < m.width && 0 <= y < m.height && m.pixel(x, y) != 0
}

/// The neighbourhood radius of an erosion: `radius` read as a signed 32-bit
/// number, so that radii past `i32::MAX` give an empty neighbourhood.
pub open spec fn erosion_radius(radius: u32) -> int {
    if radius <= 0x7FFF_FFFF { radius as int } else { -1 }
}

/// Pixel `(x + dx, y + dy)` is on the mask and set.
pub open spec fn neighbour_ok(m: LumaImage, x: int, y: int, dx: int, dy: int) -> bool {
    nonzero_at(m, x + dx, y + dy)
}

/// All offsets of the square neighbourhood of radius `r` that come before
/// `(dx, dy)` in row order point at set pixels.
pub open spec fn neighbours_ok_before(m: LumaImage, x: int, y: int, r: int, dy: int, dx: int) -> bool {
    forall|ddx: int, ddy: int|
        -r <= ddx <= r && -r <= ddy <= r && (ddy < dy || (ddy == dy && ddx < dx))
            ==> #[trigger] neighbour_ok(m, x, y, ddx, ddy)
}

/// A set pixel survives erosion when its whole square neighbourhood of the
/// given radius lies on the mask and is set.
pub open spec fn survives_erosion(m: LumaImage, radius: u32, x: int, y: int) -> bool {
    let r = erosion_radius(radius);
    nonzero_at(m, x, y) && neighbours_ok_before(m, x, y, r, r + 1, -r)
}

/// `e` is `m` eroded with a square of side `2 * radius + 1`.
pub open spec fn is_erosion_of(e: LumaImage, m: LumaImage, radius: u32) -> bool {
    &&& e.wf()
    &&& e.width == m.width
    &&& e.height == m.height
    &&& radius == 0 ==> e.data@ == m.data@
    &&& radius != 0 ==> forall|x: int, y: int|
        0 <= x < m.width && 0 <= y < m.height ==> #[trigger] e.pixel(x, y) == if survives_erosion(
            m,
            radius,
            x,
            y,
        ) {
            255u8
        } else {
            0u8
        }
}

/// Erosion never sets a pixel: every pixel set in the eroded mask is set in
/// the mask.
pub proof fn lemma_erosion_shrinks(e: LumaImage, m: LumaImage, radius: u32, x: int, y: int)
    requires
        m.wf(),
        is_erosion_of(e, m, radius),
        nonzero_at(e, x, y),
    ensures
        nonzero_at(m, x, y),
{
    if radius != 0 {
        assert(e.pixel(x, y) == if survives_erosion(m, radius, x, y) { 255u8 } else { 0u8 });
    }
}

/// Morphological erosion with a square of side `2 * radius + 1`: a pixel
/// stays set (255) only where it and its whole neighbourhood are set and
/// inside the mask; everything else becomes 0. Radius 0 returns a copy.
pub fn erode_mask(mask: &LumaImage, radius: u32) -> (e: LumaImage)
    requires
        mask.wf(),
        mask.width * mask.height == 0 || (mask.width <= 0x7FFF_FFFF && mask.height <= 0x7FFF_FFFF),
    ensures
        is_erosion_of(e, *mask, radius),
{
    if radius == 0 {
        return LumaImage { width: mask.width, height: mask.height, data: mask.data.clone() };
    }
    let w = mask.width;
    let h = mask.height;
    let n = mask.data.len();
    let r: i64 = if radius <= 0x7FFF_FFFF { radius as i64 } else { -1 };
    let mut out: Vec<u8> = Vec::new();
    let mut y: u32 = 0;
    while y < h
        invariant
            mask.wf(),
            n == mask.data@.len(),
            w == mask.width,
            h == mask.height,
            radius != 0,
            r == erosion_radius(radius),
            y <= h,
            out@.len() == y * w,
            forall|x2: int, y2: int|
                0 <= x2 < w && 0 <= y2 < y ==> #[trigger] crate::matchers::image::at(out@, w as int, x2, y2)
                    == if survives_erosion(*mask, radius, x2, y2) { 255u8 } else { 0u8 },
        decreases h - y,
    {
        let mut x: u32 = 0;
        while x < w
            invariant
                mask.wf(),
                n == mask.data@.len(),
                w == mask.width,
                h == mask.height,
                radius != 0,
                r == erosion_radius(radius),
                y < h,
                x <= w,
                out@.len() == y * w + x,
                forall|x2: int, y2: int|
                    0 <= x2 < w && 0 <= y2 < y ==> #[trigger] crate::matchers::image::at(out@, w as int, x2, y2)
                        == if survives_erosion(*mask, radius, x2, y2) { 255u8 } else { 0u8 },
                forall|x2: int|
                    0 <= x2 < x ==> #[trigger] crate::matchers::image::at(out@, w as int, x2, y as int)
                        == if survives_erosion(*mask, radius, x2, y as int) { 255u8 } else { 0u8 },
            decreases w - x,
        {
            proof {
                crate::arith::lemma_row_major_bound(y as int, x as int, w as int, h as int);
            }
            let v = mask.data[y as usize * w as usize + x as usize];
            let mut keep = v != 0;
            if keep {
                let mut dy: i64 = -r;
                while keep && dy <= r
                    invariant
                        mask.wf(),
                        n == mask.data@.len(),
                        w == mask.width,
                        h == mask.height,
                        r == erosion_radius(radius),
                        x < w,
                        y < h,
                        -r <= dy,
                        r < 0 || dy <= r + 1,
                        v != 0,
                        keep ==> neighbours_ok_before(*mask, x as int, y as int, r as int, dy as int, -r),
                        !keep ==> !neighbours_ok_before(*mask, x as int, y as int, r as int, r + 1, -r),
                    decreases r + 1 - dy,
                {
                    let mut dx: i64 = -r;
                    while keep && dx <= r
                        invariant
                            mask.wf(),
                            n == mask.data@.len(),
                            w == mask.width,
                            h == mask.height,
                            r == erosion_radius(radius),
                            x < w,
                            y < h,
                            -r <= dy <= r,
                            -r <= dx <= r + 1,
                            keep ==> neighbours_ok_before(*mask, x as int, y as int, r as int, dy as int, dx as int),
                            !keep ==> !neighbours_ok_before(*mask, x as int, y as int, r as int, r + 1, -r),
                        decreases r + 1 - dx,
                    {
                        let nx = x as i64 + dx;
                        let ny = y as i64 + dy;
                        if nx < 0 || nx >= w as i64 || ny < 0 || ny >= h as i64 {
                            keep = false;
                            proof {
                                assert(!neighbour_ok(*mask, x as int, y as int, dx as int, dy as int));
                            }
                        } else {
                            proof {
                                crate::arith::lemma_row_major_bound(ny as int, nx as int, w as int, h as int);
                            }
                            if mask.data[ny as usize * w as usize + nx as usize] == 0 {
                                keep = false;
                                proof {
                                    assert(!neighbour_ok(*mask, x as int, y as int, dx as int, dy as int));
                                }
                            }
                        }
                        dx += 1;
                    }
                    proof {
                        if keep {
                            assert forall|ddx: int, ddy: int|
                                -r <= ddx <= r && -r <= ddy <= r && (ddy < dy + 1 || (ddy == dy + 1 && ddx < -r))
                                    implies #[trigger] neighbour_ok(*mask, x as int, y as int, ddx, ddy) by {
                                if ddy < dy {
                                    assert(neighbours_ok_before(*mask, x as int, y as int, r as int, dy as int, dx as int));
                                }
                            }
                        }
                    }
                    dy += 1;
                }
                proof {
                    if keep {
                        assert(neighbours_ok_before(*mask, x as int, y as int, r as int, r + 1, -r));
                    }
                }
            }
            let ghost before = out@;
            if keep {
                out.push(255);
            } else {
                out.push(0);
            }
            proof {
                assert forall|x2: int, y2: int|
                    0 <= x2 < w && 0 <= y2 < y implies #[trigger] crate::matchers::image::at(out@, w as int, x2, y2)
                        == if survives_erosion(*mask, radius, x2, y2) { 255u8 } else { 0u8 } by {
                    crate::arith::lemma_row_major_bound(y2, x2, w as int, y as int);
                    assert(crate::matchers::image::at(out@, w as int, x2, y2) == crate::matchers::image::at(before, w as int, x2, y2));
                }
                assert forall|x2: int|
                    0 <= x2 < x + 1 implies #[trigger] crate::matchers::image::at(out@, w as int, x2, y as int)
                        == if survives_erosion(*mask, radius, x2, y as int) { 255u8 } else { 0u8 } by {
                    if x2 < x {
                        assert(crate::matchers::image::at(out@, w as int, x2, y as int) == crate::matchers::image::at(before, w as int, x2, y as int));
                    }
                }
            }
            x += 1;
        }
        proof {
            assert(y * w + w == (y + 1) * w) by (nonlinear_arith);
        }
        y += 1;
    }
    proof {
        assert(out@.len() == w * h) by (nonlinear_arith) requires out@.len() == h * w;
    }
    let e = LumaImage { width: w, height: h, data: out };
    proof {
        assert forall|x: int, y: int| 0 <= x < w && 0 <= y < h implies #[trigger] e.pixel(x, y)
            == if survives_erosion(*mask, radius, x, y) { 255u8 } else { 0u8 } by {
            assert(crate::matchers::image::at(out@, w as int, x, y) == if survives_erosion(
                *mask,
                radius,
                x,
                y,
            ) {
                255u8
            } else {
                0u8
            });
        }
    }
    e
}


/// `(bx, by)` to `(ex, ey)` is the tightest box around the set pixels of `m`:
/// each bound is reached by a set pixel and no set pixel lies outside it.
pub open spec fn is_mask_bbox(m: LumaImage, bx: int, by: int, ex: int, ey: int) -> bool {
    &&& exists|y: int| #[trigger] nonzero_at(m, bx, y)
    &&& exists|y: int| #[trigger] nonzero_at(m, ex, y)
    &&& exists|x: int| #[trigger] nonzero_at(m, x, by)
    &&& exists|x: int| #[trigger] nonzero_at(m, x, ey)
    &&& forall|x: int, y: int| #[trigger] nonzero_at(m, x, y) ==> bx <= x <= ex && by <= y <= ey
}

/// `r` is `(gray, mask)` cropped to the tightest box around the set pixels of
/// `mask`, or unchanged when no pixel is set.
pub open spec fn is_autocrop_of(r: (LumaImage, LumaImage), gray: LumaImage, mask: LumaImage) -> bool {
    &&& (forall|x: int, y: int| !#[trigger] nonzero_at(mask, x, y)) ==> r == (gray, mask)
    &&& (exists|x: int, y: int| #[trigger] nonzero_at(mask, x, y)) ==> exists|
        bx: int,
        by: int,
        ex: int,
        ey: int,
    |
        #[trigger] is_mask_bbox(mask, bx, by, ex, ey) && is_crop_of(
            r.0,
            gray,
            bx,
            by,
            ex - bx + 1,
            ey - by + 1,
        ) && is_crop_of(r.1, mask, bx, by, ex - bx + 1, ey - by + 1)
}

/// Cropping to the mask loses no set pixel and keeps no other: a pixel of
/// the cropped mask is set exactly where the mask's pixel, moved by the
/// box's corner, is set.
pub proof fn lemma_mask_crop_keeps_set_pixels(
    cropped: LumaImage,
    mask: LumaImage,
    bx: int,
    by: int,
    ex: int,
    ey: int,
    x: int,
    y: int,
)
    requires
        is_mask_bbox(mask, bx, by, ex, ey),
        is_crop_of(cropped, mask, bx, by, ex - bx + 1, ey - by + 1),
    ensures
        cropped.width == ex - bx + 1,
        cropped.height == ey - by + 1,
        nonzero_at(mask, x, y) <==> nonzero_at(cropped, x - bx, y - by),
{
    let wy = choose|y: int| #[trigger] nonzero_at(mask, bx, y);
    let wy2 = choose|y: int| #[trigger] nonzero_at(mask, ex, y);
    let wx = choose|x: int| #[trigger] nonzero_at(mask, x, by);
    let wx2 = choose|x: int| #[trigger] nonzero_at(mask, x, ey);
    assert(nonzero_at(mask, bx, wy) && nonzero_at(mask, ex, wy2));
    assert(nonzero_at(mask, wx, by) && nonzero_at(mask, wx2, ey));
    assert(0 <= bx <= ex < mask.width && 0 <= by <= ey < mask.height);
    if nonzero_at(mask, x, y) {
        assert(bx <= x <= ex && by <= y <= ey);
        assert(cropped.pixel(x - bx, y - by) == mask.pixel(bx + (x - bx), by + (y - by)));
    }
    if nonzero_at(cropped, x - bx, y - by) {
        assert(cropped.pixel(x - bx, y - by) == mask.pixel(bx + (x - bx), by + (y - by)));
    }
}

/// Crops `gray` and `mask` to the tightest box around the set pixels of
/// `mask`; returns both unchanged when no pixel is set.
pub fn autocrop_to_mask(gray: LumaImage, mask: LumaImage) -> (r: (LumaImage, LumaImage))
    requires
        gray.wf(),
        mask.wf(),
    ensures
        is_autocrop_of(r, gray, mask),
{
    let (w, h) = mask.dimensions();
    let n = mask.data.len();
    let mut min_x: u32 = w;
    let mut max_x: u32 = 0;
    let mut min_y: u32 = h;
    let mut max_y: u32 = 0;
    let mut found = false;
    let ghost mut wy_min_x: int = 0;
    let ghost mut wy_max_x: int = 0;
    let ghost mut wx_min_y: int = 0;
    let ghost mut wx_max_y: int = 0;
    let mut y: u32 = 0;
    while y < h
        invariant
            mask.wf(),
            n == mask.data@.len(),
            w == mask.width,
            h == mask.height,
            y <= h,
            found <==> exists|x2: int, y2: int| 0 <= y2 < y && #[trigger] nonzero_at(mask, x2, y2),
            found ==> {
                &&& nonzero_at(mask, min_x as int, wy_min_x)
                &&& nonzero_at(mask, max_x as int, wy_max_x)
                &&& nonzero_at(mask, wx_min_y, min_y as int)
                &&& nonzero_at(mask, wx_max_y, max_y as int)
                &&& forall|x2: int, y2: int|
                    0 <= y2 < y && #[trigger] nonzero_at(mask, x2, y2) ==> min_x <= x2 <= max_x && min_y
                        <= y2 <= max_y
            },
        decreases h - y,
    {
        let mut x: u32 = 0;
        while x < w
            invariant
                mask.wf(),
                n == mask.data@.len(),
                w == mask.width,
                h == mask.height,
                y < h,
                x <= w,
                found <==> exists|x2: int, y2: int|
                    (0 <= y2 < y || (y2 == y && x2 < x)) && #[trigger] nonzero_at(mask, x2, y2),
                found ==> {
                    &&& nonzero_at(mask, min_x as int, wy_min_x)
                    &&& nonzero_at(mask, max_x as int, wy_max_x)
                    &&& nonzero_at(mask, wx_min_y, min_y as int)
                    &&& nonzero_at(mask, wx_max_y, max_y as int)
                    &&& forall|x2: int, y2: int|
                        (0 <= y2 < y || (y2 == y && x2 < x)) && #[trigger] nonzero_at(mask, x2, y2)
                            ==> min_x <= x2 <= max_x && min_y <= y2 <= max_y
                },
            decreases w - x,
        {
            proof {
                crate::arith::lemma_row_major_bound(y as int, x as int, w as int, h as int);
            }
            if mask.data[y as usize * w as usize + x as usize] > 0 {
                proof {
                    assert(nonzero_at(mask, x as int, y as int));
                }
                if !found {
                    min_x = x;
                    max_x = x;
                    min_y = y;
                    max_y = y;
                    proof {
                        wy_min_x = y as int;
                        wy_max_x = y as int;
                        wx_min_y = x as int;
                        wx_max_y = x as int;
                    }
                } else {
                    if x < min_x {
                        min_x = x;
                        proof {
                            wy_min_x = y as int;
                        }
                    }
                    if x > max_x {
                        max_x = x;
                        proof {
                            wy_max_x = y as int;
                        }
                    }
                    if y < min_y {
                        min_y = y;
                        proof {
                            wx_min_y = x as int;
                        }
                    }
                    if y > max_y {
                        max_y = y;
                        proof {
                            wx_max_y = x as int;
                        }
                    }
                }
                found = true;
            }
            x += 1;
        }
        y += 1;
    }
    if !found {
        proof {
            assert forall|x2: int, y2: int| !#[trigger] nonzero_at(mask, x2, y2) by {
                if nonzero_at(mask, x2, y2) {
                    assert(0 <= y2 < y);
                }
            }
        }
        return (gray, mask);
    }
    let crop_w = max_x - min_x + 1;
    let crop_h = max_y - min_y + 1;
    let cropped_gray = gray.crop_imm(min_x, min_y, crop_w, crop_h);
    let cropped_mask = mask.crop_imm(min_x, min_y, crop_w, crop_h);
    proof {
        assert forall|x2: int, y2: int| #[trigger] nonzero_at(mask, x2, y2) implies min_x <= x2
            <= max_x && min_y <= y2 <= max_y by {
            assert(0 <= y2 < y);
        }
        assert(is_mask_bbox(mask, min_x as int, min_y as int, max_x as int, max_y as int));
    }
    (cropped_gray, cropped_mask)
}


/// Why the embedded assets could not be loaded.
#[derive(Debug, Clone)]
pub enum AssetError {
    /// No embedded file has this path.
    NotFound(String),
    /// The file at `path` is not an image the decoder understands.
    Decode { path: String, message: String },
    /// A mask path whose file name does not end in `_mask.png`.
    MaskPath(String),
    /// A popularity template named otherwise than low, normal or high.
    Popularity(String),
}

#[verifier::external_type_specification]
#[verifier::external_body]
pub struct ExImageError(image::ImageError);

/// What `image::load_from_memory` decodes from `bytes`, converted with
/// `DynamicImage::into_luma8`: width, height and row-major gray bytes.
pub uninterp spec fn luma8_decoding(bytes: Seq<u8>) -> Option<(u32, u32, Seq<u8>)>;

/// What `image::load_from_memory` decodes from `bytes`, converted with
/// `DynamicImage::to_rgba8`: width, height and row-major RGBA bytes.
pub uninterp spec fn rgba8_decoding(bytes: Seq<u8>) -> Option<(u32, u32, Seq<u8>)>;

/// Calls `image::load_from_memory` and `DynamicImage::into_luma8`. Claims
/// that the result is the named decoding of `bytes`, that the pixel buffer
/// holds `width * height` bytes, and that the decoder's default allocation
/// limit of 512 MiB bounds the pixel count.
#[verifier::external_body]
fn decode_luma8(bytes: &[u8]) -> (r: Result<LumaImage, image::ImageError>)
    ensures
        r is Ok <==> luma8_decoding(bytes@) is Some,
        r matches Ok(img) ==> luma8_decoding(bytes@) == Some((img.width, img.height, img.data@))
            && img.wf() && img.width * img.height <= 0x2000_0000,
{
    let img = image::load_from_memory(bytes)?.into_luma8();
    let (width, height) = img.dimensions();
    Ok(LumaImage { width, height, data: img.into_raw() })
}

/// Calls `image::load_from_memory` and `DynamicImage::to_rgba8`. Claims
/// that the result is the named decoding of `bytes`, that the pixel buffer
/// holds four bytes per pixel, and that the decoder's default allocation
/// limit of 512 MiB bounds the pixel count.
#[verifier::external_body]
fn decode_rgba8(bytes: &[u8]) -> (r: Result<RgbaImage, image::ImageError>)
    ensures
        r is Ok <==> rgba8_decoding(bytes@) is Some,
        r matches Ok(img) ==> rgba8_decoding(bytes@) == Some((img.width, img.height, img.data@))
            && img.wf() && img.width * img.height <= 0x2000_0000,
{
    let img = image::load_from_memory(bytes)?.to_rgba8();
    let (width, height) = img.dimensions();
    Ok(RgbaImage { width, height, data: img.into_raw() })
}

/// The decoder's message for `e`, as `ImageError`'s `Display` writes it.
#[verifier::external_body]
fn image_error_text(e: &image::ImageError) -> String {
    format!("{e}")
}

/// An RGBA raster, four bytes per pixel, row by row.
pub struct RgbaImage {
    pub width: u32,
    pub height: u32,
    pub data: Vec<u8>,
}

impl RgbaImage {
    pub open spec fn wf(&self) -> bool {
        self.data@.len() == self.width * self.height * 4
    }
}

/// Decodes an image and converts it to 8-bit gray; an error gives the
/// decoder's message.
pub fn decode_gray(file_data: &[u8]) -> (r: Result<LumaImage, String>)
    ensures
        r is Ok <==> luma8_decoding(file_data@) is Some,
        r matches Ok(img) ==> img.wf() && luma8_decoding(file_data@) == Some(
            (img.width, img.height, img.data@),
        ) && img.width * img.height <= 0x2000_0000,
{
    match decode_luma8(file_data) {
        Ok(img) => Ok(img),
        Err(e) => Err(image_error_text(&e)),
    }
}

/// Channel `c` (0 red, 1 green, 2 blue, 3 alpha) of pixel `k`.
pub open spec fn rgba_at(px: Seq<u8>, k: int, c: int) -> u8 {
    px[4 * k + c]
}

/// Whether pixel `(x, y)` of a `w` by `h` image lies within 4 pixels of its edge.
pub open spec fn in_border(x: int, y: int, w: int, h: int) -> bool {
    x < 4 || x + 4 >= w || y < 4 || y + 4 >= h
}

/// Sums of red, green and blue over the opaque border pixels among the
/// first `n` pixels, and their count.
pub open spec fn border_stats(px: Seq<u8>, w: int, h: int, n: int) -> (int, int, int, int)
    decreases n,
{
    if n <= 0 || w <= 0 {
        (0, 0, 0, 0)
    } else {
        let (r, g, b, c) = border_stats(px, w, h, n - 1);
        let k = n - 1;
        if in_border(k % w, k / w, w, h) && rgba_at(px, k, 3) == 255 {
            (
                r + rgba_at(px, k, 0),
                g + rgba_at(px, k, 1),
                b + rgba_at(px, k, 2),
                c + 1,
            )
        } else {
            (r, g, b, c)
        }
    }
}

/// The mean color of the opaque border pixels, when there is one.
pub open spec fn background(px: Seq<u8>, w: int, h: int) -> Option<(int, int, int)> {
    let (r, g, b, c) = border_stats(px, w, h, w * h);
    if c > 0 { Some((r / c, g / c, b / c)) } else { None }
}

/// Gray level of pixel `k` by the ITU-R 601 weights.
pub open spec fn luma_of(px: Seq<u8>, k: int) -> u8 {
    ((rgba_at(px, k, 0) * 299 + rgba_at(px, k, 1) * 587 + rgba_at(px, k, 2) * 114) / 1000) as u8
}

/// 0 for pixels that are nearly transparent or within distance 45 of the
/// background color, 255 for the rest.
pub open spec fn foreground_of(px: Seq<u8>, k: int, bg: Option<(int, int, int)>) -> u8 {
    if rgba_at(px, k, 3) <= 30 {
        0
    } else {
        match bg {
            Some((br, bgg, bb)) => {
                let dr = rgba_at(px, k, 0) - br;
                let dg = rgba_at(px, k, 1) - bgg;
                let db = rgba_at(px, k, 2) - bb;
                if dr * dr + dg * dg + db * db <= 45 * 45 { 0 } else { 255 }
            },
            None => 255,
        }
    }
}

/// What makes a pixel foreground: a nearly transparent pixel (alpha at most
/// 30) never is; an opaque one is when there is no background estimate, and
/// is not when it has exactly the background's color.
pub proof fn lemma_foreground_rules(px: Seq<u8>, k: int, bg: Option<(int, int, int)>)
    ensures
        rgba_at(px, k, 3) <= 30 ==> foreground_of(px, k, bg) == 0,
        rgba_at(px, k, 3) > 30 && bg is None ==> foreground_of(px, k, bg) == 255,
        bg matches Some(c) && c == (rgba_at(px, k, 0) as int, rgba_at(px, k, 1) as int, rgba_at(px, k, 2) as int)
            ==> foreground_of(px, k, bg) == 0,
        foreground_of(px, k, bg) == 0 || foreground_of(px, k, bg) == 255,
{
    match bg {
        Some(c) => {
            let dr = rgba_at(px, k, 0) - c.0;
            let dg = rgba_at(px, k, 1) - c.1;
            let db = rgba_at(px, k, 2) - c.2;
            if dr == 0 && dg == 0 && db == 0 {
                assert(dr * dr + dg * dg + db * db == 0) by (nonlinear_arith)
                    requires dr == 0, dg == 0, db == 0;
            }
        },
        None => {},
    }
}

proof fn lemma_no_opaque_border(px: Seq<u8>, w: int, h: int, n: int)
    requires
        w > 0,
        forall|k: int| 0 <= k < n && in_border(k % w, k / w, w, h) ==> #[trigger] rgba_at(px, k, 3) != 255,
    ensures
        border_stats(px, w, h, n).3 == 0,
    decreases n,
{
    if n > 0 {
        lemma_no_opaque_border(px, w, h, n - 1);
        assert(in_border((n - 1) % w, (n - 1) / w, w, h) ==> rgba_at(px, n - 1, 3) != 255);
    }
}

/// An image with no opaque pixel near its edge has no background estimate:
/// its raw mask keeps exactly the pixels that are not nearly transparent.
pub proof fn lemma_transparent_border_keeps_opaque_pixels(
    decoded: (u32, u32, Seq<u8>),
    gray: LumaImage,
    raw: LumaImage,
    eroded: LumaImage,
    out: (LumaImage, LumaImage),
)
    requires
        automask_stages(decoded, gray, raw, eroded, out),
        forall|k: int|
            0 <= k < decoded.0 * decoded.1 && in_border(k % (decoded.0 as int), k / (decoded.0 as int), decoded.0 as int, decoded.1 as int)
                ==> #[trigger] rgba_at(decoded.2, k, 3) != 255,
    ensures
        forall|k: int|
            0 <= k < decoded.0 * decoded.1 ==> #[trigger] raw.data@[k] == if rgba_at(decoded.2, k, 3) > 30 {
                255u8
            } else {
                0u8
            },
{
    let (w, h, px) = decoded;
    if w > 0 {
        lemma_no_opaque_border(px, w as int, h as int, w * h);
        assert(background(px, w as int, h as int) is None);
    }
    assert forall|k: int| 0 <= k < w * h implies #[trigger] raw.data@[k] == if rgba_at(px, k, 3) > 30 {
        255u8
    } else {
        0u8
    } by {
        assert(raw.data@[k] == foreground_of(px, k, background(px, w as int, h as int)));
        if w == 0 {
            assert(w * h == 0) by (nonlinear_arith) requires w == 0;
        }
    }
}

proof fn lemma_border_stats_bound(px: Seq<u8>, w: int, h: int, n: int)
    requires
        w > 0,
        0 <= n,
    ensures
        ({
            let (r, g, b, c) = border_stats(px, w, h, n);
            0 <= r <= 255 * c && 0 <= g <= 255 * c && 0 <= b <= 255 * c && 0 <= c <= n
        }),
    decreases n,
{
    if n > 0 {
        lemma_border_stats_bound(px, w, h, n - 1);
    }
}

/// The stages of deriving a template and its mask from decoded RGBA pixels:
/// `gray` holds the gray levels, `raw` the foreground test against the
/// border's mean color, `eroded` that mask eroded by 2, and `out` both
/// cropped to what the eroded mask keeps.
pub open spec fn automask_stages(
    decoded: (u32, u32, Seq<u8>),
    gray: LumaImage,
    raw: LumaImage,
    eroded: LumaImage,
    out: (LumaImage, LumaImage),
) -> bool {
    let (w, h, px) = decoded;
    let bg = background(px, w as int, h as int);
    &&& gray.wf() && raw.wf()
    &&& gray.width == w && gray.height == h && raw.width == w && raw.height == h
    &&& forall|k: int| 0 <= k < w * h ==> #[trigger] gray.data@[k] == luma_of(px, k)
    &&& forall|k: int| 0 <= k < w * h ==> #[trigger] raw.data@[k] == foreground_of(px, k, bg)
    &&& is_erosion_of(eroded, raw, 2)
    &&& is_autocrop_of(out, gray, eroded)
}

/// Decodes an image and derives a gray template and a foreground mask from
/// it: the background is the mean color of the opaque pixels
/// within 4 pixels of the edge; pixels that are nearly transparent or close
/// to it are masked out. The mask is then eroded by 2 and both images are
/// cropped to what it keeps.
pub fn automask_image(file_data: &[u8]) -> (r: Result<(LumaImage, LumaImage), String>)
    ensures
        r is Ok <==> rgba8_decoding(file_data@) is Some,
        r is Ok ==> exists|gray: LumaImage, raw: LumaImage, eroded: LumaImage|
            #[trigger] automask_stages(rgba8_decoding(file_data@)->0, gray, raw, eroded, r->Ok_0),
{
    let rgba = match decode_rgba8(file_data) {
        Ok(img) => img,
        Err(e) => return Err(image_error_text(&e)),
    };
    let ghost px = rgba.data@;
    let w = rgba.width;
    let h = rgba.height;
    let n: usize = w as usize * h as usize;
    let ghost gw = w as int;
    let ghost gh = h as int;
    let margin: u32 = 4;
    let mut sum_r: u64 = 0;
    let mut sum_g: u64 = 0;
    let mut sum_b: u64 = 0;
    let mut count: u64 = 0;
    proof {
        assert(n * 4 == w * h * 4);
    }
    let mut y: u32 = 0;
    while y < h
        invariant
            rgba.wf(),
            px == rgba.data@,
            w == rgba.width,
            h == rgba.height,
            gw == w,
            gh == h,
            n == w * h,
            n <= 0x2000_0000,
            margin == 4,
            y <= h,
            w > 0 ==> (sum_r as int, sum_g as int, sum_b as int, count as int) == border_stats(px, gw, gh, y * gw),
            w == 0 ==> sum_r == 0 && sum_g == 0 && sum_b == 0 && count == 0,
        decreases h - y,
    {
        let mut x: u32 = 0;
        while x < w
            invariant
                rgba.wf(),
                px == rgba.data@,
                w == rgba.width,
                h == rgba.height,
                gw == w,
                gh == h,
                n == w * h,
                n <= 0x2000_0000,
                margin == 4,
                y < h,
                x <= w,
                (sum_r as int, sum_g as int, sum_b as int, count as int) == border_stats(px, gw, gh, y * gw + x),
            decreases w - x,
        {
            let ghost k = y * gw + x;
            proof {
                crate::arith::lemma_row_major_bound(y as int, x as int, gw, gh);
                crate::arith::lemma_row_major_split(y as int, x as int, gw);
                lemma_border_stats_bound(px, gw, gh, k);
                assert(4 * k + 3 < px.len());
            }
            let is_border_zone = x < margin || x + margin >= w || y < margin || y + margin >= h;
            let base = 4 * (y as usize * w as usize + x as usize);
            if is_border_zone {
                if rgba.data[base + 3] == 255 {
                    sum_r += rgba.data[base] as u64;
                    sum_g += rgba.data[base + 1] as u64;
                    sum_b += rgba.data[base + 2] as u64;
                    count += 1;
                }
            }
            x += 1;
        }
        proof {
            assert(y * gw + gw == (y + 1) * gw) by (nonlinear_arith);
        }
        y += 1;
    }
    proof {
        if w > 0 {
            lemma_border_stats_bound(px, gw, gh, gw * gh);
            assert(y as int == gh);
            assert((y as int) * gw == gw * gh) by (nonlinear_arith) requires y as int == gh;
        } else {
            assert(gw * gh == 0) by (nonlinear_arith) requires gw == 0;
        }
    }
    let bg_color: Option<(i32, i32, i32)> = if count > 0 {
        Some(((sum_r / count) as i32, (sum_g / count) as i32, (sum_b / count) as i32))
    } else {
        None
    };
    let ghost bg = background(px, gw, gh);
    proof {
        if count > 0 {
            assert(sum_r / count <= 255 && sum_g / count <= 255 && sum_b / count <= 255) by (nonlinear_arith)
                requires sum_r <= 255 * count, sum_g <= 255 * count, sum_b <= 255 * count, count > 0;
        }
    }
    let bg_tolerance_sq: i32 = 45 * 45;
    let mut gray_data: Vec<u8> = Vec::new();
    let mut mask_data: Vec<u8> = Vec::new();
    let plen = rgba.data.len();
    let mut k: usize = 0;
    while k < n
        invariant
            plen == px.len(),
            rgba.wf(),
            px == rgba.data@,
            n == w * h,
            n * 4 == px.len(),
            bg_tolerance_sq == 45 * 45,
            bg_color is Some <==> bg is Some,
            bg_color matches Some(c) ==> bg == Some((c.0 as int, c.1 as int, c.2 as int)),
            bg_color matches Some(c) ==> 0 <= c.0 <= 255 && 0 <= c.1 <= 255 && 0 <= c.2 <= 255,
            k <= n,
            gray_data@.len() == k,
            mask_data@.len() == k,
            forall|j: int| 0 <= j < k ==> #[trigger] gray_data@[j] == luma_of(px, j),
            forall|j: int| 0 <= j < k ==> #[trigger] mask_data@[j] == foreground_of(px, j, bg),
        decreases n - k,
    {
        let r = rgba.data[4 * k] as i32;
        let g = rgba.data[4 * k + 1] as i32;
        let b = rgba.data[4 * k + 2] as i32;
        let a = rgba.data[4 * k + 3];
        let luma = ((r as u32 * 299 + g as u32 * 587 + b as u32 * 114) / 1000) as u8;
        gray_data.push(luma);
        let mask_val: u8 = if a <= 30 {
            0
        } else {
            match bg_color {
                Some((bg_r, bg_g, bg_b)) => {
                    let dr = r - bg_r;
                    let dg = g - bg_g;
                    let db = b - bg_b;
                    proof {
                        assert(0 <= dr * dr <= 65025 && 0 <= dg * dg <= 65025 && 0 <= db * db <= 65025) by (nonlinear_arith)
                            requires -255 <= dr <= 255, -255 <= dg <= 255, -255 <= db <= 255;
                    }
                    let dist_sq = dr * dr + dg * dg + db * db;
                    if dist_sq <= bg_tolerance_sq { 0 } else { 255 }
                },
                None => 255,
            }
        };
        mask_data.push(mask_val);
        k += 1;
    }
    let gray = LumaImage { width: w, height: h, data: gray_data };
    let raw = LumaImage { width: w, height: h, data: mask_data };
    proof {
        assert(w * h == 0 || (w <= 0x7FFF_FFFF && h <= 0x7FFF_FFFF)) by (nonlinear_arith)
            requires w * h <= 0x2000_0000;
    }
    let eroded = erode_mask(&raw, 2);
    let ghost g = gray;
    let ghost e = eroded;
    let out = autocrop_to_mask(gray, eroded);
    proof {
        assert(is_erosion_of(e, raw, 2));
        assert(is_autocrop_of(out, g, e));
        let (dw, dh, dpx) = rgba8_decoding(file_data@)->0;
        assert(dw == w && dh == h && dpx == px);
        assert(g.wf() && raw.wf());
        assert(forall|j: int| 0 <= j < dw * dh ==> #[trigger] g.data@[j] == luma_of(dpx, j));
        assert(forall|j: int| 0 <= j < dw * dh ==> #[trigger] raw.data@[j] == foreground_of(dpx, j, background(dpx, dw as int, dh as int)));
    }
    let res: Result<(LumaImage, LumaImage), String> = Ok(out);
    proof {
        assert(automask_stages(rgba8_decoding(file_data@)->0, g, raw, e, res->Ok_0));
    }
    res
}


/// Prices keyed by popularity name, each key at most once.
#[derive(Debug, Clone)]
pub struct PriceMap {
    pub entries: Vec<(String, u32)>,
}

/// Position of the first pair with key `k`, if any.
pub open spec fn key_index(entries: Seq<(String, u32)>, k: Seq<char>) -> Option<int> {
    if exists|i: int| 0 <= i < entries.len() && #[trigger] entries[i].0@ == k {
        Some(
            choose|i: int|
                0 <= i < entries.len() && #[trigger] entries[i].0@ == k && forall|j: int|
                    0 <= j < i ==> #[trigger] entries[j].0@ != k,
        )
    } else {
        None
    }
}

/// A pair with key `k` and none before it is the first.
pub proof fn lemma_key_index_first(entries: Seq<(String, u32)>, k: Seq<char>, i: int)
    requires
        0 <= i < entries.len(),
        entries[i].0@ == k,
        forall|j: int| 0 <= j < i ==> #[trigger] entries[j].0@ != k,
    ensures
        key_index(entries, k) == Some(i),
{
    assert(entries[i].0@ == k && forall|j: int| 0 <= j < i ==> #[trigger] entries[j].0@ != k);
    let c = choose|c: int|
        0 <= c < entries.len() && #[trigger] entries[c].0@ == k && forall|j: int|
            0 <= j < c ==> #[trigger] entries[j].0@ != k;
    if c < i {
        assert(entries[c].0@ != k);
    } else if c > i {
        assert(entries[i].0@ != k);
    }
}

/// With no key repeated, the first pair with key `k` is the only one.
pub proof fn lemma_key_index_unique(entries: Seq<(String, u32)>, k: Seq<char>, i: int)
    requires
        forall|a: int, b: int|
            0 <= a < b < entries.len() ==> #[trigger] entries[a].0@ != #[trigger] entries[b].0@,
        0 <= i < entries.len(),
        entries[i].0@ == k,
    ensures
        key_index(entries, k) == Some(i),
{
    assert forall|j: int| 0 <= j < i implies #[trigger] entries[j].0@ != k by {
        assert(entries[j].0@ != entries[i].0@);
    }
    lemma_key_index_first(entries, k, i);
}

impl PriceMap {
    /// No key occurs twice.
    pub open spec fn wf(&self) -> bool {
        forall|i: int, j: int|
            0 <= i < j < self.entries@.len() ==> #[trigger] self.entries@[i].0@ != #[trigger] self.entries@[j].0@
    }

    /// The price stored under `k`.
    pub open spec fn price(&self, k: Seq<char>) -> Option<u32> {
        match key_index(self.entries@, k) {
            Some(i) => Some(self.entries@[i].1),
            None => None,
        }
    }

    /// A copy of the map.
    pub fn copy(&self) -> (m: Self)
        ensures
            m.entries@ == self.entries@,
    {
        let mut entries: Vec<(String, u32)> = Vec::new();
        let n = self.entries.len();
        let mut i: usize = 0;
        while i < n
            invariant
                n == self.entries@.len(),
                i <= n,
                entries@ == self.entries@.take(i as int),
            decreases n - i,
        {
            let (k, p) = &self.entries[i];
            entries.push((k.clone(), *p));
            proof {
                assert(entries@ =~= self.entries@.take(i + 1));
            }
            i += 1;
        }
        proof {
            assert(entries@ =~= self.entries@);
        }
        PriceMap { entries }
    }

    pub fn new() -> (m: Self)
        ensures
            m.wf(),
            m.entries@.len() == 0,
            forall|k: Seq<char>| m.price(k) is None,
    {
        PriceMap { entries: Vec::new() }
    }

    /// Stores `price` under `key`, replacing a price stored there before.
    pub fn insert(&mut self, key: String, price: u32)
        requires
            old(self).wf(),
        ensures
            final(self).wf(),
            final(self).price(key@) == Some(price),
            forall|k: Seq<char>| k != key@ ==> final(self).price(k) == old(self).price(k),
    {
        let n = self.entries.len();
        let mut i: usize = 0;
        while i < n
            invariant
                n == self.entries@.len(),
                self.entries@ == old(self).entries@,
                self.wf(),
                i <= n,
                forall|j: int| 0 <= j < i ==> #[trigger] self.entries@[j].0@ != key@,
            decreases n - i,
        {
            if self.entries[i].0 == key {
                let ghost old_entries = self.entries@;
                self.entries.set(i, (key, price));
                proof {
                    assert(self.entries@[i as int].0@ == key@);
                    assert(forall|j: int| 0 <= j < n ==> #[trigger] self.entries@[j].0@ == old_entries[j].0@);
                    assert(self.wf());
                    lemma_key_index_unique(self.entries@, key@, i as int);
                    assert forall|k: Seq<char>| k != key@ implies self.price(k) == old(self).price(k) by {
                        if exists|a: int| 0 <= a < n && #[trigger] old_entries[a].0@ == k {
                            let a = choose|a: int| 0 <= a < n && #[trigger] old_entries[a].0@ == k;
                            lemma_key_index_unique(old_entries, k, a);
                            lemma_key_index_unique(self.entries@, k, a);
                        } else {
                            assert forall|a: int| 0 <= a < n implies #[trigger] self.entries@[a].0@ != k by {
                                if a != i {
                                    assert(self.entries@[a] == old_entries[a]);
                                }
                            }
                        }
                    }
                }
                return;
            }
            i += 1;
        }
        let ghost old_entries = self.entries@;
        self.entries.push((key, price));
        proof {
            assert(self.entries@[n as int].0@ == key@);
            assert(forall|j: int| 0 <= j < n ==> #[trigger] self.entries@[j] == old_entries[j]);
            assert(self.wf());
            lemma_key_index_unique(self.entries@, key@, n as int);
            assert forall|k: Seq<char>| k != key@ implies self.price(k) == old(self).price(k) by {
                if exists|a: int| 0 <= a < n && #[trigger] old_entries[a].0@ == k {
                    let a = choose|a: int| 0 <= a < n && #[trigger] old_entries[a].0@ == k;
                    lemma_key_index_unique(old_entries, k, a);
                    lemma_key_index_unique(self.entries@, k, a);
                } else {
                    assert forall|a: int| 0 <= a < n + 1 implies #[trigger] self.entries@[a].0@ != k by {
                        if a < n {
                            assert(self.entries@[a] == old_entries[a]);
                        }
                    }
                }
            }
        }
    }

    /// The price stored under `key`.
    pub fn get(&self, key: &str) -> (p: Option<u32>)
        ensures
            p == self.price(key@),
    {
        let k = chars_of(key);
        let n = self.entries.len();
        let mut i: usize = 0;
        while i < n
            invariant
                n == self.entries@.len(),
                k@ == key@,
                i <= n,
                forall|j: int| 0 <= j < i ==> #[trigger] self.entries@[j].0@ != key@,
            decreases n - i,
        {
            let ek = chars_of(self.entries[i].0.as_str());
            if crate::text::seq_eq(&ek, &k) {
                proof {
                    lemma_key_index_first(self.entries@, key@, i as int);
                }
                return Some(self.entries[i].1);
            }
            i += 1;
        }
        None
    }
}


/// One item of the price table.
#[derive(Debug, Clone)]
pub struct ItemPriceEntry {
    pub name: String,
    pub prices: PriceMap,
    pub ng_plus_prices: Option<PriceMap>,
}


/// All known items and their prices.
#[derive(Debug, Clone)]
pub struct ItemPriceTable {
    pub items: Vec<ItemPriceEntry>,
}

/// `s` lowercased, with spaces and hyphens turned into underscores.
pub open spec fn normalized(s: Seq<char>) -> Seq<char> {
    lowercase(s).map_values(|c: char| if c == ' ' || c == '-' { '_' } else { c })
}

/// The characters of `s` lowercased, with spaces and hyphens turned into
/// underscores, so that names match whatever their case and separators.
fn normalize_chars(s: &str) -> (v: Vec<char>)
    ensures
        v@ == normalized(s@),
{
    let lower = to_lowercase(s);
    let cs = chars_of(lower.as_str());
    let mut v: Vec<char> = Vec::new();
    let mut i: usize = 0;
    while i < cs.len()
        invariant
            cs@ == lowercase(s@),
            i <= cs@.len(),
            v@ == cs@.take(i as int).map_values(|c: char| if c == ' ' || c == '-' { '_' } else { c }),
        decreases cs@.len() - i,
    {
        let c = cs[i];
        let m = if c == ' ' || c == '-' { '_' } else { c };
        v.push(m);
        proof {
            assert(cs@.take(i + 1).map_values(|c: char| if c == ' ' || c == '-' { '_' } else { c })
                =~= cs@.take(i as int).map_values(|c: char| if c == ' ' || c == '-' { '_' } else { c }).push(m));
        }
        i += 1;
    }
    proof {
        assert(cs@.take(cs@.len() as int) =~= cs@);
    }
    v
}

/// `s` lowercased, with spaces and hyphens turned into underscores.
pub fn normalize_name(s: &str) -> (r: String)
    ensures
        r@ == normalized(s@),
{
    let v = normalize_chars(s);
    crate::text::string_of(&v)
}

/// Entry `e` answers to the normalized name `target`.
pub open spec fn entry_matches(e: ItemPriceEntry, target: Seq<char>) -> bool {
    normalized(e.name@).len() > 0 && normalized(e.name@) == target
}

/// The entries whose normalized name contains `q`, in table order.
pub open spec fn entries_containing(items: Seq<ItemPriceEntry>, q: Seq<char>) -> Seq<ItemPriceEntry>
    decreases items.len(),
{
    if items.len() == 0 {
        Seq::empty()
    } else {
        let pre = entries_containing(items.drop_last(), q);
        if seq_contains(normalized(items.last().name@), q) {
            pre.push(items.last())
        } else {
            pre
        }
    }
}

/// Every entry a search finds is an entry of the table whose normalized
/// name contains the normalized query.
pub proof fn lemma_search_results_contain_query(items: Seq<ItemPriceEntry>, q: Seq<char>, k: int)
    requires
        0 <= k < entries_containing(items, q).len(),
    ensures
        seq_contains(normalized(entries_containing(items, q)[k].name@), q),
        items.contains(entries_containing(items, q)[k]),
    decreases items.len(),
{
    let pre = entries_containing(items.drop_last(), q);
    if k < pre.len() {
        lemma_search_results_contain_query(items.drop_last(), q, k);
        let e = pre[k];
        let j = choose|j: int| 0 <= j < items.drop_last().len() && items.drop_last()[j] == e;
        assert(items[j] == e);
    } else {
        assert(items[items.len() - 1] == items.last());
    }
}

proof fn lemma_entries_containing_prefix(items: Seq<ItemPriceEntry>, q: Seq<char>, i: int)
    requires
        0 <= i <= items.len(),
    ensures
        entries_containing(items.take(i), q).len() <= entries_containing(items, q).len(),
        entries_containing(items.take(i), q) == entries_containing(items, q).take(
            entries_containing(items.take(i), q).len() as int,
        ),
    decreases items.len() - i,
{
    if i == items.len() {
        assert(items.take(i) =~= items);
        assert(entries_containing(items, q).take(entries_containing(items, q).len() as int)
            =~= entries_containing(items, q));
    } else {
        lemma_entries_containing_prefix(items, q, i + 1);
        let a = entries_containing(items.take(i), q);
        let b = entries_containing(items.take(i + 1), q);
        assert(items.take(i + 1).drop_last() =~= items.take(i));
        let full = entries_containing(items, q);
        assert(b == full.take(b.len() as int));
        if seq_contains(normalized(items[i].name@), q) {
            assert(b == a.push(items[i]));
            assert(a =~= full.take(a.len() as int));
        } else {
            assert(b == a);
        }
    }
}

impl ItemPriceTable {
    /// The first entry whose normalized name equals the normalized `name`;
    /// none for a name that normalizes to nothing.
    pub fn lookup_entry(&self, name: &str) -> (r: Option<&ItemPriceEntry>)
        ensures
            r is None <==> (normalized(name@).len() == 0 || forall|i: int|
                0 <= i < self.items@.len() ==> !entry_matches(#[trigger] self.items@[i], normalized(name@))),
            r matches Some(e) ==> exists|i: int|
                0 <= i < self.items@.len() && *e == #[trigger] self.items@[i] && entry_matches(
                    self.items@[i],
                    normalized(name@),
                ) && forall|j: int| 0 <= j < i ==> !entry_matches(#[trigger] self.items@[j], normalized(name@)),
    {
        let norm_target = normalize_chars(name);
        if norm_target.len() == 0 {
            return None;
        }
        let n = self.items.len();
        let mut i: usize = 0;
        while i < n
            invariant
                n == self.items@.len(),
                norm_target@ == normalized(name@),
                norm_target@.len() > 0,
                i <= n,
                forall|j: int| 0 <= j < i ==> !entry_matches(#[trigger] self.items@[j], normalized(name@)),
            decreases n - i,
        {
            let e = &self.items[i];
            let ne = normalize_chars(e.name.as_str());
            if ne.len() != 0 && crate::text::seq_eq(&ne, &norm_target) {
                proof {
                    assert(entry_matches(self.items@[i as int], normalized(name@)));
                }
                return Some(e);
            }
            i += 1;
        }
        None
    }

    /// The prices of the entry `lookup_entry` finds.
    pub fn lookup(&self, name: &str) -> (r: Option<&PriceMap>)
        ensures
            r is None <==> (normalized(name@).len() == 0 || forall|i: int|
                0 <= i < self.items@.len() ==> !entry_matches(#[trigger] self.items@[i], normalized(name@))),
            r matches Some(p) ==> exists|i: int|
                0 <= i < self.items@.len() && *p == (#[trigger] self.items@[i]).prices && entry_matches(
                    self.items@[i],
                    normalized(name@),
                ) && forall|j: int| 0 <= j < i ==> !entry_matches(#[trigger] self.items@[j], normalized(name@)),
    {
        match self.lookup_entry(name) {
            Some(e) => Some(&e.prices),
            None => None,
        }
    }

    /// The price of `name` at `popularity`: the New Game+ price when asked
    /// for and present, else the normal one.
    pub fn lookup_price(&self, name: &str, popularity: Popularity, ng_plus: bool) -> (r: Option<u32>)
        ensures
            r == match first_entry(self.items@, normalized(name@)) {
                None => None,
                Some(e) => entry_price(e, popularity, ng_plus),
            },
    {
        let entry = match self.lookup_entry(name) {
            Some(e) => e,
            None => {
                proof {
                    lemma_first_entry_none(self.items@, normalized(name@));
                }
                return None;
            },
        };
        proof {
            let i = choose|i: int|
                0 <= i < self.items@.len() && *entry == #[trigger] self.items@[i] && entry_matches(
                    self.items@[i],
                    normalized(name@),
                ) && forall|j: int| 0 <= j < i ==> !entry_matches(#[trigger] self.items@[j], normalized(name@));
            lemma_first_entry_some(self.items@, normalized(name@), i);
        }
        let key = popularity.as_key();
        if ng_plus {
            match &entry.ng_plus_prices {
                Some(ng_prices) => match ng_prices.get(key) {
                    Some(p) => return Some(p),
                    None => {},
                },
                None => {},
            }
        }
        entry.prices.get(key)
    }

    /// Up to `limit` entries whose normalized name contains the normalized
    /// `query`, in table order; none for a query that normalizes to nothing.
    pub fn search(&self, query: &str, limit: usize) -> (r: Vec<&ItemPriceEntry>)
        ensures
            normalized(query@).len() == 0 ==> r@.len() == 0,
            normalized(query@).len() > 0 ==> ({
                let all = entries_containing(self.items@, normalized(query@));
                r@.map_values(|e: &ItemPriceEntry| *e) == all.take(
                    if limit <= all.len() { limit as int } else { all.len() as int },
                )
            }),
    {
        let norm_query = normalize_chars(query);
        if norm_query.len() == 0 {
            return Vec::new();
        }
        let ghost q = normalized(query@);
        let n = self.items.len();
        let mut out: Vec<&ItemPriceEntry> = Vec::new();
        let mut i: usize = 0;
        while i < n && out.len() < limit
            invariant
                n == self.items@.len(),
                norm_query@ == q,
                i <= n,
                out@.map_values(|e: &ItemPriceEntry| *e) == entries_containing(self.items@.take(i as int), q),
                out@.len() <= limit,
            decreases n - i,
        {
            let e = &self.items[i];
            let ne = normalize_chars(e.name.as_str());
            proof {
                assert(self.items@.take(i + 1).drop_last() =~= self.items@.take(i as int));
            }
            let ghost before = out@;
            if contains(&ne, &norm_query) {
                out.push(e);
                proof {
                    assert(out@.map_values(|e: &ItemPriceEntry| *e) =~= before.map_values(
                        |e: &ItemPriceEntry| *e,
                    ).push(self.items@[i as int]));
                }
            }
            i += 1;
        }
        proof {
            lemma_entries_containing_prefix(self.items@, q, i as int);
            let all = entries_containing(self.items@, q);
            assert(out@.map_values(|e: &ItemPriceEntry| *e).len() == out@.len());
            if i == n {
                assert(self.items@.take(i as int) =~= self.items@);
                assert(all.take(all.len() as int) =~= all);
            }
        }
        out
    }
}

/// The first entry answering to `target`.
pub open spec fn first_entry(items: Seq<ItemPriceEntry>, target: Seq<char>) -> Option<ItemPriceEntry> {
    if target.len() > 0 && exists|i: int| 0 <= i < items.len() && #[trigger] entry_matches(items[i], target) {
        let i = choose|i: int|
            0 <= i < items.len() && #[trigger] entry_matches(items[i], target) && forall|j: int|
                0 <= j < i ==> !entry_matches(#[trigger] items[j], target);
        Some(items[i])
    } else {
        None
    }
}

/// The price of an entry at a popularity: its New Game+ price when asked for
/// and present, else its normal one.
pub open spec fn entry_price(e: ItemPriceEntry, popularity: Popularity, ng_plus: bool) -> Option<u32> {
    let k = popularity_key(popularity);
    if ng_plus && e.ng_plus_prices is Some && e.ng_plus_prices->0.price(k) is Some {
        e.ng_plus_prices->0.price(k)
    } else {
        e.prices.price(k)
    }
}

pub(crate) proof fn lemma_first_entry_none(items: Seq<ItemPriceEntry>, target: Seq<char>)
    requires
        target.len() == 0 || forall|i: int| 0 <= i < items.len() ==> !entry_matches(#[trigger] items[i], target),
    ensures
        first_entry(items, target) is None,
{
}

pub(crate) proof fn lemma_first_entry_some(items: Seq<ItemPriceEntry>, target: Seq<char>, i: int)
    requires
        0 <= i < items.len(),
        entry_matches(items[i], target),
        forall|j: int| 0 <= j < i ==> !entry_matches(#[trigger] items[j], target),
    ensures
        first_entry(items, target) == Some(items[i]),
{
    assert(target.len() > 0);
    let c = choose|c: int|
        0 <= c < items.len() && #[trigger] entry_matches(items[c], target) && forall|j: int|
            0 <= j < c ==> !entry_matches(#[trigger] items[j], target);
    assert(entry_matches(items[i], target) && forall|j: int| 0 <= j < i ==> !entry_matches(#[trigger] items[j], target));
    if c < i {
        assert(!entry_matches(items[c], target));
    } else if c > i {
        assert(!entry_matches(items[i], target));
    }
}

} // verus!
