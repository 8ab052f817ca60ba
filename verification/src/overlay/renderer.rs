//! Software drawing into a 32-bit ARGB pixel buffer.

use super::draw_list::{color, Argb, DebugRect, ItemCard};
use crate::text::{ascii_upper, char_uppercase, decimal, is_white_space, lowercase, uppercase};
use vstd::utf8::encode_utf8;
use vstd::prelude::*;

verus! {

/// The corner radius, once clamped to half the box's sides, fits the
/// arithmetic of the corner test.
pub open spec fn radius_ok(r: int, w: int, h: int) -> bool {
    r <= 0x7FFF_FFFF || w / 2 <= 0x7FFF_FFFF || h / 2 <= 0x7FFF_FFFF
}

/// `a - b`, or 0 when `b > a`.
pub open spec fn sat_sub(a: int, b: int) -> int {
    if a >= b { a - b } else { 0 }
}

pub open spec fn min(a: int, b: int) -> int {
    if a <= b { a } else { b }
}

pub open spec fn max(a: int, b: int) -> int {
    if a >= b { a } else { b }
}

/// The buffer after drawing an outline of `rect`, `t` pixels wide, in
/// `color`, clipped to the `w` by `h` canvas: top band, bottom band, left
/// band, right band.
pub open spec fn outlined(buf: Seq<u32>, w: int, h: int, rect: crate::matchers::Rect, t: int, color: u32) -> Seq<u32> {
    let (x, y) = (rect.x as int, rect.y as int);
    let x2 = min(x + rect.width, w);
    let y2 = min(y + rect.height, h);
    let by = max(sat_sub(y2, t), y);
    let bx = max(sat_sub(x2, t), x);
    let top = painted(buf, w, h, x, y, sat_sub(x2, x), sat_sub(min(y + t, y2), y), Shape::Solid, 0, color);
    let bottom = painted(top, w, h, x, by, sat_sub(x2, x), sat_sub(y2, by), Shape::Solid, 0, color);
    let left = painted(bottom, w, h, x, y, sat_sub(min(x + t, x2), x), sat_sub(y2, y), Shape::Solid, 0, color);
    painted(left, w, h, bx, y, sat_sub(x2, bx), sat_sub(y2, y), Shape::Solid, 0, color)
}

/// The buffer after drawing a card: its drop shadow 3 pixels down and right,
/// its rounded body and, when given, its outline.
pub open spec fn carded(
    buf: Seq<u32>,
    w: int,
    h: int,
    rx: int,
    ry: int,
    rw: int,
    rh: int,
    radius: int,
    fill: u32,
    border: Option<u32>,
) -> Seq<u32> {
    if rw == 0 || rh == 0 {
        buf
    } else {
        let shadow = painted(buf, w, h, rx + 3, ry + 3, rw, rh, Shape::Rounded, radius, 0x6600_0000u32);
        let body = painted(shadow, w, h, rx, ry, rw, rh, Shape::Rounded, radius, fill);
        match border {
            Some(bc) => painted(body, w, h, rx, ry, rw, rh, Shape::RoundedEdge, radius, bc),
            None => body,
        }
    }
}

/// A request to draw `text` with its top-left corner at `(x, y)` in `color`,
/// `size` pixels high.
#[derive(Debug, Clone)]
pub struct TextOp {
    pub x: usize,
    pub y: usize,
    pub text: String,
    pub color: Argb,
    pub size: u32,
}

/// The 8-bit channel of `c` that starts at bit `shift`.
pub open spec fn channel(c: u32, shift: u32) -> u32 {
    (c >> shift) & 0xFFu32
}

/// `s` weighted by `a / 255` plus `d` weighted by `(255 - a) / 255`, rounded down.
pub open spec fn mix(s: u32, d: u32, a: u32) -> u32 {
    ((s * a + d * (255 - a)) / 255) as u32
}

/// Packs four 8-bit channels into `0xAARRGGBB`.
pub open spec fn pack(a: u32, r: u32, g: u32, b: u32) -> u32 {
    (a << 24u32) | (r << 16u32) | (g << 8u32) | b
}

/// `color` drawn over `dst`: an opaque color replaces the pixel, a fully
/// transparent one leaves it, any other mixes each color channel by the
/// source alpha and keeps the larger of the two alphas.
pub open spec fn blend(dst: u32, color: u32) -> u32 {
    let sa = channel(color, 24);
    if sa == 255 {
        color
    } else if sa == 0 {
        dst
    } else {
        let da = channel(dst, 24);
        pack(
            if sa >= da { sa } else { da },
            mix(channel(color, 16), channel(dst, 16), sa),
            mix(channel(color, 8), channel(dst, 8), sa),
            mix(channel(color, 0), channel(dst, 0), sa),
        )
    }
}

/// The pixel at `(px, py)` of a buffer `w` pixels wide.
pub open spec fn pix(s: Seq<u32>, w: int, px: int, py: int) -> u32 {
    s[py * w + px]
}

/// `x - 1`, or 0 for 0.
pub open spec fn dec(x: int) -> int {
    if x == 0 { 0 } else { x - 1 }
}

/// Whether local position `(x, y)` of a `w` by `h` box lies inside the box
/// with its corners rounded off by quarter circles of radius `r` (clamped to
/// half the box's sides).
pub open spec fn inside_rounded(x: int, y: int, w: int, h: int, r: int) -> bool {
    if r == 0 {
        true
    } else {
        let r1 = if r <= w / 2 { r } else { w / 2 };
        let r2 = if r1 <= h / 2 { r1 } else { h / 2 };
        if x < r2 && y < r2 {
            (r2 - x) * (r2 - x) + (r2 - y) * (r2 - y) <= r2 * r2
        } else if x >= w - r2 && y < r2 {
            (x - (w - r2 - 1)) * (x - (w - r2 - 1)) + (r2 - y) * (r2 - y) <= r2 * r2
        } else if x < r2 && y >= h - r2 {
            (r2 - x) * (r2 - x) + (y - (h - r2 - 1)) * (y - (h - r2 - 1)) <= r2 * r2
        } else if x >= w - r2 && y >= h - r2 {
            (x - (w - r2 - 1)) * (x - (w - r2 - 1)) + (y - (h - r2 - 1)) * (y - (h - r2 - 1))
                <= r2 * r2
        } else {
            true
        }
    }
}

/// Inside the rounded box, next to its outside or on its first row or column.
pub open spec fn on_rounded_edge(x: int, y: int, w: int, h: int, r: int) -> bool {
    inside_rounded(x, y, w, h, r) && (!inside_rounded(x + 1, y, w, h, r) || x == 0
        || !inside_rounded(dec(x), y, w, h, r) || !inside_rounded(x, y + 1, w, h, r) || y == 0
        || !inside_rounded(x, dec(y), w, h, r))
}

/// Which positions of a box a region fill paints.
#[derive(Debug, Clone, Copy, PartialEq, Eq, Structural)]
pub enum Shape {
    /// Every position.
    Solid,
    /// The positions inside the rounded box.
    Rounded,
    /// The outline of the rounded box.
    RoundedEdge,
}

pub open spec fn in_shape(shape: Shape, x: int, y: int, w: int, h: int, r: int) -> bool {
    match shape {
        Shape::Solid => true,
        Shape::Rounded => inside_rounded(x, y, w, h, r),
        Shape::RoundedEdge => on_rounded_edge(x, y, w, h, r),
    }
}

/// Whether canvas position `(px, py)` is painted by a `rw` by `rh` box placed
/// at `(ox, oy)`, among the box positions before row `cy`, column `cx`.
pub open spec fn covers_until(
    ox: int,
    oy: int,
    rw: int,
    rh: int,
    shape: Shape,
    radius: int,
    px: int,
    py: int,
    cy: int,
    cx: int,
) -> bool {
    &&& ox <= px < ox + rw
    &&& oy <= py < oy + rh
    &&& in_shape(shape, px - ox, py - oy, rw, rh, radius)
    &&& (py - oy < cy || (py - oy == cy && px - ox < cx))
}

/// The buffer after blending `color` into the covered positions that lie on a
/// `w` by `h` canvas, up to box row `cy`, column `cx`.
pub open spec fn painted_until(
    old: Seq<u32>,
    w: int,
    h: int,
    ox: int,
    oy: int,
    rw: int,
    rh: int,
    shape: Shape,
    radius: int,
    color: u32,
    cy: int,
    cx: int,
) -> Seq<u32> {
    Seq::new(
        old.len(),
        |i: int|
            if w > 0 && i < w * h && covers_until(
                ox,
                oy,
                rw,
                rh,
                shape,
                radius,
                i % w,
                i / w,
                cy,
                cx,
            ) {
                blend(old[i], color)
            } else {
                old[i]
            },
    )
}

/// The buffer after blending `color` into every canvas pixel the box covers.
pub open spec fn painted(
    old: Seq<u32>,
    w: int,
    h: int,
    ox: int,
    oy: int,
    rw: int,
    rh: int,
    shape: Shape,
    radius: int,
    color: u32,
) -> Seq<u32> {
    painted_until(old, w, h, ox, oy, rw, rh, shape, radius, color, rh, 0)
}


proof fn lemma_paint_step(
    old: Seq<u32>,
    w: int,
    h: int,
    ox: int,
    oy: int,
    rw: int,
    rh: int,
    shape: Shape,
    radius: int,
    color: u32,
    y: int,
    x: int,
)
    requires
        0 <= x < rw,
        0 <= y < rh,
        0 <= ox,
        0 <= oy,
        w * h <= old.len(),
    ensures
        ({
            let cur = painted_until(old, w, h, ox, oy, rw, rh, shape, radius, color, y, x);
            let next = painted_until(old, w, h, ox, oy, rw, rh, shape, radius, color, y, x + 1);
            if ox + x < w && oy + y < h && in_shape(shape, x, y, rw, rh, radius) {
                &&& 0 <= (oy + y) * w + ox + x < w * h
                &&& cur[(oy + y) * w + ox + x] == old[(oy + y) * w + ox + x]
                &&& next == cur.update((oy + y) * w + ox + x, blend(old[(oy + y) * w + ox + x], color))
            } else {
                next == cur
            }
        }),
{
    let cur = painted_until(old, w, h, ox, oy, rw, rh, shape, radius, color, y, x);
    let next = painted_until(old, w, h, ox, oy, rw, rh, shape, radius, color, y, x + 1);
    if ox + x < w && oy + y < h && in_shape(shape, x, y, rw, rh, radius) {
        let idx = (oy + y) * w + ox + x;
        crate::arith::lemma_row_major_bound(oy + y, ox + x, w, h);
        crate::arith::lemma_row_major_split(oy + y, ox + x, w);
        assert(h * w == w * h) by (nonlinear_arith);
        let upd = cur.update(idx, blend(old[idx], color));
        assert(idx / w == oy + y && idx % w == ox + x);
        assert forall|i: int| 0 <= i < old.len() implies next[i] == upd[i] by {
            if i == idx {
                assert(covers_until(ox, oy, rw, rh, shape, radius, ox + x, oy + y, y, x + 1));
                assert(next[i] == blend(old[i], color));
                assert(upd[i] == blend(old[i], color));
            } else if w > 0 && i < w * h {
                let px = i % w;
                let py = i / w;
                vstd::arithmetic::div_mod::lemma_fundamental_div_mod(i, w);
                assert(i == py * w + px) by (nonlinear_arith)
                    requires i == w * (i / w) + i % w, px == i % w, py == i / w;
                assert(!(px == ox + x && py == oy + y));
                assert(covers_until(ox, oy, rw, rh, shape, radius, px, py, y, x + 1) == covers_until(
                    ox, oy, rw, rh, shape, radius, px, py, y, x));
                assert(next[i] == cur[i]);
                assert(upd[i] == cur[i]);
            } else {
                assert(next[i] == cur[i]);
                assert(upd[i] == cur[i]);
            }
        }
        assert(next =~= upd);
    } else {
        assert forall|i: int| 0 <= i < old.len() implies next[i] == cur[i] by {
            if w > 0 && i < w * h {
                vstd::arithmetic::div_mod::lemma_fundamental_div_mod(i, w);
                assert(0 <= i % w < w) by (nonlinear_arith) requires w > 0;
                assert(0 <= i / w < h) by (nonlinear_arith) requires w > 0, 0 <= i < w * h;
            }
        }
        assert(next =~= cur);
    }
}

proof fn lemma_paint_row_end(
    old: Seq<u32>,
    w: int,
    h: int,
    ox: int,
    oy: int,
    rw: int,
    rh: int,
    shape: Shape,
    radius: int,
    color: u32,
    y: int,
)
    ensures
        painted_until(old, w, h, ox, oy, rw, rh, shape, radius, color, y, rw) == painted_until(
            old,
            w,
            h,
            ox,
            oy,
            rw,
            rh,
            shape,
            radius,
            color,
            y + 1,
            0,
        ),
{
    assert(painted_until(old, w, h, ox, oy, rw, rh, shape, radius, color, y, rw) =~= painted_until(
        old,
        w,
        h,
        ox,
        oy,
        rw,
        rh,
        shape,
        radius,
        color,
        y + 1,
        0,
    ));
}

/// Blending over an opaque color yields that color; a fully transparent one
/// leaves the pixel as it was.
pub proof fn lemma_blend_extremes(dst: u32, color: u32)
    ensures
        channel(color, 24) == 255 ==> blend(dst, color) == color,
        channel(color, 24) == 0 ==> blend(dst, color) == dst,
{
}

/// A blended pixel keeps the larger alpha, and each of its color channels
/// lies between the corresponding channels of the two pixels mixed.
pub proof fn lemma_blend_channels(dst: u32, color: u32)
    requires
        0 < channel(color, 24) < 255,
    ensures
        channel(blend(dst, color), 24) == if channel(color, 24) >= channel(dst, 24) {
            channel(color, 24)
        } else {
            channel(dst, 24)
        },
        forall|s: u32|
            s == 0 || s == 8 || s == 16 ==> {
                let lo = if channel(color, s) <= channel(dst, s) {
                    channel(color, s)
                } else {
                    channel(dst, s)
                };
                let hi = if channel(color, s) >= channel(dst, s) {
                    channel(color, s)
                } else {
                    channel(dst, s)
                };
                lo <= #[trigger] channel(blend(dst, color), s) <= hi
            },
{
    let sa = channel(color, 24);
    let da = channel(dst, 24);
    assert(sa <= 255 && da <= 255) by (bit_vector)
        requires sa == (color >> 24u32) & 0xFFu32, da == (dst >> 24u32) & 0xFFu32;
    let a = if sa >= da { sa } else { da };
    let cr = channel(color, 16);
    let cg = channel(color, 8);
    let cb = channel(color, 0);
    let dr = channel(dst, 16);
    let dg = channel(dst, 8);
    let db = channel(dst, 0);
    assert(cr <= 255 && cg <= 255 && cb <= 255 && dr <= 255 && dg <= 255 && db <= 255)
        by (bit_vector)
        requires
            cr == (color >> 16u32) & 0xFFu32,
            cg == (color >> 8u32) & 0xFFu32,
            cb == (color >> 0u32) & 0xFFu32,
            dr == (dst >> 16u32) & 0xFFu32,
            dg == (dst >> 8u32) & 0xFFu32,
            db == (dst >> 0u32) & 0xFFu32,
    ;
    let r = mix(cr, dr, sa);
    let g = mix(cg, dg, sa);
    let b = mix(cb, db, sa);
    assert forall|s1: u32, d1: u32|
        s1 <= 255 && d1 <= 255 implies {
            let m = #[trigger] mix(s1, d1, sa);
            &&& m <= 255
            &&& (if s1 <= d1 { s1 } else { d1 }) <= m <= (if s1 >= d1 { s1 } else { d1 })
        } by {
        let v = s1 * sa + d1 * (255 - sa);
        assert((if s1 <= d1 { s1 } else { d1 }) * 255 <= v <= (if s1 >= d1 { s1 } else { d1 })
            * 255) by (nonlinear_arith)
            requires v == s1 * sa + d1 * (255 - sa), 0 < sa < 255;
    }
    let p = pack(a, r, g, b);
    assert(channel(p, 24) == a && channel(p, 16) == r && channel(p, 8) == g && channel(p, 0) == b)
        by (bit_vector)
        requires
            a <= 255,
            r <= 255,
            g <= 255,
            b <= 255,
            p == (a << 24u32) | (r << 16u32) | (g << 8u32) | b,
    ;
}

/// A view of a pixel buffer `width` pixels wide and `height` pixels high.
pub struct Renderer<'a> {
    pub buf: &'a mut [u32],
    pub width: usize,
    pub height: usize,
}

impl<'a> Renderer<'a> {
    /// The buffer holds at least `width * height` pixels.
    pub open spec fn wf(&self) -> bool {
        self.width * self.height <= self.buf@.len()
    }

    pub fn new(buf: &'a mut [u32], width: usize, height: usize) -> (r: Self)
        ensures
            r.buf@ == old(buf)@,
            final(r.buf)@ == final(buf)@,
            r.width == width,
            r.height == height,
    {
        Renderer { buf, width, height }
    }

    /// Blends `color` into the pixel at `(x, y)`; positions off the canvas are
    /// ignored.
    pub fn set_pixel(&mut self, x: usize, y: usize, color: u32)
        requires
            old(self).wf(),
        ensures
            final(self).width == old(self).width,
            final(self).height == old(self).height,
            final(self).buf@ == if x < old(self).width && y < old(self).height {
                old(self).buf@.update(
                    y * old(self).width + x,
                    blend(old(self).buf@[y * old(self).width + x], color),
                )
            } else {
                old(self).buf@
            },
    {
        if x < self.width && y < self.height {
            proof {
                crate::arith::lemma_row_major_bound(y as int, x as int, self.width as int, self.height as int);
                assert(self.height * self.width == self.width * self.height) by (nonlinear_arith);
            }
            let n = self.buf.len();
            let idx = y * self.width + x;
            let src_a = (color >> 24u32) & 0xFFu32;
            if src_a == 255 {
                self.buf[idx] = color;
            } else if src_a > 0 {
                let dst = self.buf[idx];
                let dst_a = (dst >> 24u32) & 0xFFu32;
                let dst_r = (dst >> 16u32) & 0xFFu32;
                let dst_g = (dst >> 8u32) & 0xFFu32;
                let dst_b = dst & 0xFFu32;
                let src_r = (color >> 16u32) & 0xFFu32;
                let src_g = (color >> 8u32) & 0xFFu32;
                let src_b = color & 0xFFu32;
                proof {
                    assert(src_a <= 255 && dst_a <= 255 && dst_r <= 255 && dst_g <= 255 && dst_b
                        <= 255 && src_r <= 255 && src_g <= 255 && src_b <= 255) by (bit_vector)
                        requires
                            src_a == (color >> 24u32) & 0xFFu32,
                            dst_a == (dst >> 24u32) & 0xFFu32,
                            dst_r == (dst >> 16u32) & 0xFFu32,
                            dst_g == (dst >> 8u32) & 0xFFu32,
                            dst_b == dst & 0xFFu32,
                            src_r == (color >> 16u32) & 0xFFu32,
                            src_g == (color >> 8u32) & 0xFFu32,
                            src_b == color & 0xFFu32,
                    ;
                    assert(color & 0xFFu32 == (color >> 0u32) & 0xFFu32) by (bit_vector);
                    assert(dst & 0xFFu32 == (dst >> 0u32) & 0xFFu32) by (bit_vector);
                }
                let inv_a = 255 - src_a;
                proof {
                    assert(src_r * src_a <= 65025 && dst_r * inv_a <= 65025 && src_g * src_a <= 65025
                        && dst_g * inv_a <= 65025 && src_b * src_a <= 65025 && dst_b * inv_a <= 65025)
                        by (nonlinear_arith)
                        requires
                            src_a <= 255, inv_a <= 255, src_r <= 255, src_g <= 255, src_b <= 255,
                            dst_r <= 255, dst_g <= 255, dst_b <= 255;
                }
                let out_r = (src_r * src_a + dst_r * inv_a) / 255;
                let out_g = (src_g * src_a + dst_g * inv_a) / 255;
                let out_b = (src_b * src_a + dst_b * inv_a) / 255;
                let out_a = if src_a >= dst_a { src_a } else { dst_a };
                self.buf[idx] = (out_a << 24u32) | (out_r << 16u32) | (out_g << 8u32) | out_b;
            }
        }
    }

    /// Blends `color` into every canvas pixel covered by a `rw` by `rh` box
    /// placed at `(ox, oy)`.
    pub fn fill_region(
        &mut self,
        ox: usize,
        oy: usize,
        rw: usize,
        rh: usize,
        shape: Shape,
        radius: usize,
        color: u32,
    )
        requires
            old(self).wf(),
            ox + rw <= usize::MAX,
            oy + rh <= usize::MAX,
            shape != Shape::Solid ==> radius_ok(radius as int, rw as int, rh as int),
        ensures
            final(self).width == old(self).width,
            final(self).height == old(self).height,
            final(self).buf@ == painted(
                old(self).buf@,
                old(self).width as int,
                old(self).height as int,
                ox as int,
                oy as int,
                rw as int,
                rh as int,
                shape,
                radius as int,
                color,
            ),
    {
        let ghost old_buf = self.buf@;
        let ghost (w, h) = (self.width as int, self.height as int);
        let mut y: usize = 0;
        while y < rh
            invariant
                self.wf(),
                self.width == w,
                self.height == h,
                ox + rw <= usize::MAX,
                oy + rh <= usize::MAX,
                shape != Shape::Solid ==> radius_ok(radius as int, rw as int, rh as int),
                y <= rh,
                self.buf@ == painted_until(
                    old_buf,
                    w,
                    h,
                    ox as int,
                    oy as int,
                    rw as int,
                    rh as int,
                    shape,
                    radius as int,
                    color,
                    y as int,
                    0,
                ),
            decreases rh - y,
        {
            let mut x: usize = 0;
            while x < rw
                invariant
                    self.wf(),
                    self.width == w,
                    self.height == h,
                    ox + rw <= usize::MAX,
                    oy + rh <= usize::MAX,
                    shape != Shape::Solid ==> radius_ok(radius as int, rw as int, rh as int),
                    y < rh,
                    x <= rw,
                    self.buf@ == painted_until(
                        old_buf,
                        w,
                        h,
                        ox as int,
                        oy as int,
                        rw as int,
                        rh as int,
                        shape,
                        radius as int,
                        color,
                        y as int,
                        x as int,
                    ),
                decreases rw - x,
            {
                proof {
                    lemma_paint_step(
                        old_buf,
                        w,
                        h,
                        ox as int,
                        oy as int,
                        rw as int,
                        rh as int,
                        shape,
                        radius as int,
                        color,
                        y as int,
                        x as int,
                    );
                }
                let covered = match shape {
                    Shape::Solid => true,
                    Shape::Rounded => is_inside_rounded(x, y, rw, rh, radius),
                    Shape::RoundedEdge => is_on_rounded_edge(x, y, rw, rh, radius),
                };
                if covered {
                    self.set_pixel(ox + x, oy + y, color);
                }
                x += 1;
            }
            proof {
                lemma_paint_row_end(
                    old_buf,
                    w,
                    h,
                    ox as int,
                    oy as int,
                    rw as int,
                    rh as int,
                    shape,
                    radius as int,
                    color,
                    y as int,
                );
            }
            y += 1;
        }
    }
}

/// The buffer index of canvas pixel `(px, py)` maps back to it.
proof fn lemma_pixel_index(w: int, px: int, py: int)
    requires
        w > 0,
        0 <= px < w,
        py >= 0,
    ensures
        (py * w + px) % w == px,
        (py * w + px) / w == py,
{
    vstd::arithmetic::div_mod::lemma_fundamental_div_mod_converse(py * w + px, w, py, px);
}

/// Painting a box leaves every canvas pixel outside the box as it was.
pub proof fn lemma_paint_stays_in_its_box(
    buf: Seq<u32>,
    w: int,
    h: int,
    ox: int,
    oy: int,
    rw: int,
    rh: int,
    shape: Shape,
    radius: int,
    color: u32,
    px: int,
    py: int,
)
    requires
        0 <= px < w,
        0 <= py < h,
        py * w + px < buf.len(),
        !(ox <= px < ox + rw && oy <= py < oy + rh),
    ensures
        painted(buf, w, h, ox, oy, rw, rh, shape, radius, color)[py * w + px] == buf[py * w + px],
{
    lemma_pixel_index(w, px, py);
}

/// Drawing a card (`draw_rounded_rect`) leaves every canvas pixel outside
/// the card and its shadow, 3 pixels down and right, as it was.
pub proof fn lemma_card_stays_in_its_box(
    buf: Seq<u32>,
    w: int,
    h: int,
    rx: int,
    ry: int,
    rw: int,
    rh: int,
    radius: int,
    fill: u32,
    border: Option<u32>,
    px: int,
    py: int,
)
    requires
        0 <= px < w,
        0 <= py < h,
        py * w + px < buf.len(),
        !(rx <= px < rx + rw + 3 && ry <= py < ry + rh + 3),
    ensures
        carded(buf, w, h, rx, ry, rw, rh, radius, fill, border)[py * w + px] == buf[py * w + px],
{
    lemma_pixel_index(w, px, py);
}

/// Drawing an outline (`draw_debug_rect`) leaves every canvas pixel outside
/// its rectangle as it was.
pub proof fn lemma_outline_stays_in_its_box(
    buf: Seq<u32>,
    w: int,
    h: int,
    rect: crate::matchers::Rect,
    t: int,
    color: u32,
    px: int,
    py: int,
)
    requires
        0 <= px < w,
        0 <= py < h,
        py * w + px < buf.len(),
        !(rect.x <= px < rect.x + rect.width && rect.y <= py < rect.y + rect.height),
    ensures
        outlined(buf, w, h, rect, t, color)[py * w + px] == buf[py * w + px],
{
    lemma_pixel_index(w, px, py);
}

/// Whether `(x, y)` lies inside a `w` by `h` box whose corners are rounded
/// with radius `r`.
pub fn is_inside_rounded(x: usize, y: usize, w: usize, h: usize, r: usize) -> (b: bool)
    requires
        r == 0 || (radius_ok(r as int, w as int, h as int) && !(w == 0 && y >= h) && !(h == 0 && x >= w)),
    ensures
        b == inside_rounded(x as int, y as int, w as int, h as int, r as int),
{
    if r == 0 {
        return true;
    }
    let r = if r <= w / 2 { r } else { w / 2 };
    let r = if r <= h / 2 { r } else { h / 2 };
    proof {
        assert(r <= 0x7FFF_FFFF);
        assert(r * r <= 0x4000_0000_0000_0000) by (nonlinear_arith) requires r <= 0x7FFF_FFFF;
    }
    let rr = r as u64 * r as u64;
    if x < r && y < r {
        let dx = (r - x) as u64;
        let dy = (r - y) as u64;
        proof {
            assert(dx * dx <= 0x4000_0000_0000_0000 && dy * dy <= 0x4000_0000_0000_0000)
                by (nonlinear_arith)
                requires dx <= r, dy <= r, r <= 0x7FFF_FFFF;
        }
        return dx * dx + dy * dy <= rr;
    }
    if x >= w - r && y < r {
        let dx = x - (w - r - 1);
        let dy = (r - y) as u64;
        if dx > r {
            proof {
                assert(dx * dx > r * r) by (nonlinear_arith) requires dx > r, r >= 0;
            }
            return false;
        }
        let dx = dx as u64;
        proof {
            assert(dx * dx <= 0x4000_0000_0000_0000 && dy * dy <= 0x4000_0000_0000_0000)
                by (nonlinear_arith)
                requires dx <= r, dy <= r, r <= 0x7FFF_FFFF;
        }
        return dx * dx + dy * dy <= rr;
    }
    if x < r && y >= h - r {
        let dx = (r - x) as u64;
        let dy = y - (h - r - 1);
        if dy > r {
            proof {
                assert(dy * dy > r * r) by (nonlinear_arith) requires dy > r, r >= 0;
            }
            return false;
        }
        let dy = dy as u64;
        proof {
            assert(dx * dx <= 0x4000_0000_0000_0000 && dy * dy <= 0x4000_0000_0000_0000)
                by (nonlinear_arith)
                requires dx <= r, dy <= r, r <= 0x7FFF_FFFF;
        }
        return dx * dx + dy * dy <= rr;
    }
    if x >= w - r && y >= h - r {
        let dx = x - (w - r - 1);
        let dy = y - (h - r - 1);
        if dx > r || dy > r {
            proof {
                assert(dx > r ==> dx * dx > r * r) by (nonlinear_arith) requires r >= 0;
                assert(dy > r ==> dy * dy > r * r) by (nonlinear_arith) requires r >= 0;
                assert(dx * dx >= 0 && dy * dy >= 0) by (nonlinear_arith);
            }
            return false;
        }
        let dx = dx as u64;
        let dy = dy as u64;
        proof {
            assert(dx * dx <= 0x4000_0000_0000_0000 && dy * dy <= 0x4000_0000_0000_0000)
                by (nonlinear_arith)
                requires dx <= r, dy <= r, r <= 0x7FFF_FFFF;
        }
        return dx * dx + dy * dy <= rr;
    }
    true
}

/// The rounded box is symmetric: mirroring a position left to right or top
/// to bottom keeps it inside or outside. Radius 0 rounds nothing off, and
/// a radius of at least 1 always cuts off the top-left corner of a box at
/// least 2 by 2.
pub proof fn lemma_rounded_box_shape(x: int, y: int, w: int, h: int, r: int)
    requires
        0 <= x < w,
        0 <= y < h,
        r >= 0,
    ensures
        inside_rounded(x, y, w, h, r) == inside_rounded(w - 1 - x, y, w, h, r),
        inside_rounded(x, y, w, h, r) == inside_rounded(x, h - 1 - y, w, h, r),
        r == 0 ==> inside_rounded(x, y, w, h, r),
        r >= 1 && w >= 2 && h >= 2 ==> !inside_rounded(0, 0, w, h, r),
{
    if r > 0 {
        let r1 = if r <= w / 2 { r } else { w / 2 };
        let r2 = if r1 <= h / 2 { r1 } else { h / 2 };
        assert(r2 <= w - r2 && r2 <= h - r2);
        if r >= 1 && w >= 2 && h >= 2 {
            assert(r2 >= 1);
            assert(r2 * r2 > 0) by (nonlinear_arith) requires r2 >= 1;
        }
    }
}

/// Whether `(x, y)` lies on the outline of the rounded box: inside it and
/// next to a position outside it, or on its first row or column.
pub fn is_on_rounded_edge(x: usize, y: usize, w: usize, h: usize, r: usize) -> (b: bool)
    requires
        x < w,
        y < h,
        radius_ok(r as int, w as int, h as int),
    ensures
        b == on_rounded_edge(x as int, y as int, w as int, h as int, r as int),
{
    let xm = if x == 0 { 0 } else { x - 1 };
    let ym = if y == 0 { 0 } else { y - 1 };
    is_inside_rounded(x, y, w, h, r) && (!is_inside_rounded(x + 1, y, w, h, r) || x == 0
        || !is_inside_rounded(xm, y, w, h, r) || !is_inside_rounded(x, y + 1, w, h, r) || y == 0
        || !is_inside_rounded(x, ym, w, h, r))
}


impl<'a> Renderer<'a> {
    /// Draws a card: a drop shadow 3 pixels down and right, the rounded body
    /// in `fill_color` and, when given, its outline in `border_color`.
    pub fn draw_rounded_rect(
        &mut self,
        rx: usize,
        ry: usize,
        rw: usize,
        rh: usize,
        radius: usize,
        fill_color: Argb,
        border_color: Option<Argb>,
    )
        requires
            old(self).wf(),
            rx + rw + 3 <= usize::MAX,
            ry + rh + 3 <= usize::MAX,
            radius_ok(radius as int, rw as int, rh as int),
        ensures
            final(self).width == old(self).width,
            final(self).height == old(self).height,
            final(self).buf@ == carded(
                old(self).buf@,
                old(self).width as int,
                old(self).height as int,
                rx as int,
                ry as int,
                rw as int,
                rh as int,
                radius as int,
                fill_color,
                border_color,
            ),
    {
        if rw == 0 || rh == 0 {
            return;
        }
        let shadow_color: Argb = 0x66_00_00_00;
        let shadow_off: usize = 3;
        self.fill_region(rx + shadow_off, ry + shadow_off, rw, rh, Shape::Rounded, radius, shadow_color);
        self.fill_region(rx, ry, rw, rh, Shape::Rounded, radius, fill_color);
        match border_color {
            Some(bc) => self.fill_region(rx, ry, rw, rh, Shape::RoundedEdge, radius, bc),
            None => {},
        }
    }

    /// Draws the outline of `debug.rect`, `debug.thickness` pixels wide and
    /// clipped to the canvas, as four bands: top, bottom, left, right. Gives
    /// where the caption goes, when there is one.
    #[verifier::rlimit(40)]
    pub fn draw_debug_rect(&mut self, debug: &DebugRect) -> (label: Option<TextOp>)
        requires
            old(self).wf(),
            debug.rect.x + debug.rect.width + 2 <= usize::MAX,
            debug.rect.y + debug.rect.height + 2 <= usize::MAX,
            debug.rect.x + debug.thickness + 2 <= usize::MAX,
            debug.rect.y + debug.thickness + 2 <= usize::MAX,
        ensures
            final(self).width == old(self).width,
            final(self).height == old(self).height,
            final(self).buf@ == outlined(
                old(self).buf@,
                old(self).width as int,
                old(self).height as int,
                debug.rect,
                debug.thickness as int,
                debug.color,
            ),
            debug.label@.len() == 0 ==> label is None,
            debug.label@.len() > 0 ==> label == Some(
                TextOp {
                    x: (debug.rect.x + debug.thickness + 2) as usize,
                    y: (debug.rect.y + debug.thickness + 2) as usize,
                    text: debug.label,
                    color: debug.color,
                    size: 12,
                },
            ),
    {
        let x = debug.rect.x as usize;
        let y = debug.rect.y as usize;
        let w = debug.rect.width as usize;
        let h = debug.rect.height as usize;
        let t = debug.thickness as usize;
        let x2 = if x + w <= self.width { x + w } else { self.width };
        let y2 = if y + h <= self.height { y + h } else { self.height };
        let top_end = if y + t <= y2 { y + t } else { y2 };
        let band_w = if x2 >= x { x2 - x } else { 0 };
        let top_h = if top_end >= y { top_end - y } else { 0 };
        self.fill_region(x, y, band_w, top_h, Shape::Solid, 0, debug.color);
        let by0 = if y2 >= t { y2 - t } else { 0 };
        let by = if by0 >= y { by0 } else { y };
        let bottom_h = if y2 >= by { y2 - by } else { 0 };
        self.fill_region(x, by, band_w, bottom_h, Shape::Solid, 0, debug.color);
        let side_h = if y2 >= y { y2 - y } else { 0 };
        let left_end = if x + t <= x2 { x + t } else { x2 };
        let left_w = if left_end >= x { left_end - x } else { 0 };
        self.fill_region(x, y, left_w, side_h, Shape::Solid, 0, debug.color);
        let bx0 = if x2 >= t { x2 - t } else { 0 };
        let bx = if bx0 >= x { bx0 } else { x };
        let right_w = if x2 >= bx { x2 - bx } else { 0 };
        self.fill_region(bx, y, right_w, side_h, Shape::Solid, 0, debug.color);
        if debug.label.as_str().is_empty() {
            None
        } else {
            Some(
                TextOp {
                    x: x + t + 2,
                    y: y + t + 2,
                    text: debug.label.clone(),
                    color: debug.color,
                    size: 12,
                },
            )
        }
    }
}


/// The maximal runs of characters that are not white space, in order.
pub open spec fn words(s: Seq<char>) -> Seq<Seq<char>>
    decreases s.len(),
{
    if s.len() == 0 {
        Seq::empty()
    } else {
        let w = words(s.drop_last());
        let c = s.last();
        if is_white_space(c) {
            w
        } else if s.len() >= 2 && !is_white_space(s[s.len() - 2]) {
            w.update(w.len() - 1, w.last().push(c))
        } else {
            w.push(seq![c])
        }
    }
}

/// A word with its first character uppercased.
pub open spec fn capitalized(w: Seq<char>) -> Seq<char> {
    if w.len() == 0 { Seq::empty() } else { char_uppercase(w[0]) + w.drop_first() }
}

/// Words joined by single spaces.
pub open spec fn join_words(ws: Seq<Seq<char>>) -> Seq<char>
    decreases ws.len(),
{
    if ws.len() == 0 {
        Seq::empty()
    } else if ws.len() == 1 {
        ws[0]
    } else {
        join_words(ws.drop_last()) + seq![' '] + ws.last()
    }
}

/// An item's display name: underscores become spaces, and the words are
/// capitalized and joined by single spaces.
pub open spec fn display_name(name: Seq<char>) -> Seq<char> {
    join_words(words(underscores_spaced(name)).map_values(|w: Seq<char>| capitalized(w)))
}

proof fn lemma_words_shape(s: Seq<char>)
    ensures
        forall|i: int| 0 <= i < words(s).len() ==> (#[trigger] words(s)[i]).len() > 0,
        s.len() > 0 && !is_white_space(s.last()) ==> words(s).len() > 0,
    decreases s.len(),
{
    if s.len() > 0 {
        lemma_words_shape(s.drop_last());
        let w = words(s.drop_last());
        let c = s.last();
        if !is_white_space(c) && s.len() >= 2 && !is_white_space(s[s.len() - 2]) {
            assert(s.drop_last().last() == s[s.len() - 2]);
        }
    }
}

/// `name` with its underscores read as spaces.
pub open spec fn underscores_spaced(name: Seq<char>) -> Seq<char> {
    name.map_values(|c: char| if c == '_' { ' ' } else { c })
}

/// Every character is ASCII.
pub open spec fn all_ascii(s: Seq<char>) -> bool {
    forall|i: int| 0 <= i < s.len() ==> (#[trigger] s[i] as u32) < 128
}

/// A word with its first character uppercased the ASCII way.
pub open spec fn ascii_capitalized(w: Seq<char>) -> Seq<char> {
    if w.len() == 0 { Seq::empty() } else { seq![ascii_upper(w[0])] + w.drop_first() }
}

/// The display name of an ASCII name.
pub open spec fn ascii_display_name(name: Seq<char>) -> Seq<char> {
    join_words(words(underscores_spaced(name)).map_values(|w: Seq<char>| ascii_capitalized(w)))
}

/// A character a word of an ASCII display name can hold.
pub open spec fn plain(c: char) -> bool {
    !is_white_space(c) && (c as u32) < 128 && c != '_'
}

/// Every character is white space or plain.
pub open spec fn spaced_plain(s: Seq<char>) -> bool {
    forall|k: int| 0 <= k < s.len() ==> is_white_space(#[trigger] s[k]) || plain(s[k])
}

/// A nonempty word of plain characters.
pub open spec fn plain_word(w: Seq<char>) -> bool {
    w.len() > 0 && forall|j: int| 0 <= j < w.len() ==> plain(#[trigger] w[j])
}

proof fn lemma_words_plain(s: Seq<char>)
    requires
        spaced_plain(s),
    ensures
        forall|i: int| 0 <= i < words(s).len() ==> plain_word(#[trigger] words(s)[i]),
    decreases s.len(),
{
    if s.len() > 0 {
        let p = s.drop_last();
        assert(spaced_plain(p)) by {
            assert forall|k: int| 0 <= k < p.len() implies is_white_space(#[trigger] p[k]) || plain(p[k]) by {
                assert(p[k] == s[k]);
            }
        }
        lemma_words_plain(p);
        lemma_words_shape(p);
        let w = words(p);
        let c = s.last();
        assert(s[s.len() - 1] == c);
        if !is_white_space(c) {
            assert(plain(c));
            if s.len() >= 2 && !is_white_space(s[s.len() - 2]) {
                assert(p.last() == s[s.len() - 2]);
                let nw = w.update(w.len() - 1, w.last().push(c));
                assert forall|i: int| 0 <= i < nw.len() implies plain_word(#[trigger] nw[i]) by {
                    if i == w.len() - 1 {
                        assert(plain_word(w[i]));
                        assert forall|j: int| 0 <= j < nw[i].len() implies plain(#[trigger] nw[i][j]) by {
                            if j < w[i].len() {
                                assert(nw[i][j] == w[i][j]);
                            }
                        }
                    } else {
                        assert(nw[i] == w[i]);
                    }
                }
            } else {
                let nw = w.push(seq![c]);
                assert forall|i: int| 0 <= i < nw.len() implies plain_word(#[trigger] nw[i]) by {
                    if i < w.len() {
                        assert(nw[i] == w[i]);
                    } else {
                        assert(nw[i] =~= seq![c]);
                    }
                }
            }
        }
    }
}

proof fn lemma_ascii_upper_plain(c: char)
    requires
        plain(c),
    ensures
        plain(ascii_upper(c)),
        ascii_upper(ascii_upper(c)) == ascii_upper(c),
{
}

proof fn lemma_capitalized_plain(w: Seq<char>)
    requires
        plain_word(w),
    ensures
        plain_word(ascii_capitalized(w)),
        ascii_capitalized(ascii_capitalized(w)) == ascii_capitalized(w),
{
    lemma_ascii_upper_plain(w[0]);
    let cw = ascii_capitalized(w);
    assert forall|j: int| 0 <= j < cw.len() implies plain(#[trigger] cw[j]) by {
        if j > 0 {
            assert(cw[j] == w[j]);
        }
    }
    assert(ascii_capitalized(cw) =~= cw);
}

/// The words of a run of characters without white space: the run itself.
proof fn lemma_words_of_word(w: Seq<char>)
    requires
        plain_word(w),
    ensures
        words(w) == seq![w],
    decreases w.len(),
{
    let p = w.drop_last();
    if p.len() == 0 {
        assert(words(p) =~= Seq::<Seq<char>>::empty());
        assert(seq![w.last()] =~= w);
    } else {
        assert(plain_word(p)) by {
            assert forall|j: int| 0 <= j < p.len() implies plain(#[trigger] p[j]) by {
                assert(p[j] == w[j]);
            }
        }
        lemma_words_of_word(p);
        assert(plain(w[w.len() - 2]) && plain(w.last()));
        assert(p.push(w.last()) =~= w);
    }
}

/// Words on both sides of a space are kept apart.
proof fn lemma_words_split(a: Seq<char>, b: Seq<char>)
    ensures
        words(a + seq![' '] + b) == words(a) + words(b),
    decreases b.len(),
{
    let s = a + seq![' '] + b;
    if b.len() == 0 {
        assert(s.drop_last() =~= a);
        assert(words(b) =~= Seq::<Seq<char>>::empty());
        assert(words(a) + words(b) =~= words(a));
    } else {
        let bp = b.drop_last();
        assert(s.drop_last() =~= a + seq![' '] + bp);
        lemma_words_split(a, bp);
        lemma_words_shape(bp);
        let c = b.last();
        assert(s.last() == c);
        let wa = words(a);
        let wb = words(bp);
        if is_white_space(c) {
        } else if b.len() >= 2 && !is_white_space(b[b.len() - 2]) {
            assert(s[s.len() - 2] == b[b.len() - 2]);
            assert(bp.last() == b[b.len() - 2]);
            assert(wb.len() > 0);
            assert((wa + wb).update((wa + wb).len() - 1, (wa + wb).last().push(c)) =~= wa + wb.update(
                wb.len() - 1,
                wb.last().push(c),
            ));
        } else {
            if b.len() >= 2 {
                assert(s[s.len() - 2] == b[b.len() - 2]);
            } else {
                assert(s[s.len() - 2] == ' ');
            }
            assert((wa + wb).push(seq![c]) =~= wa + wb.push(seq![c]));
        }
    }
}

/// Plain words joined by single spaces split back into the same words, and
/// their join holds only plain characters and spaces.
proof fn lemma_words_of_join(ws: Seq<Seq<char>>)
    requires
        forall|i: int| 0 <= i < ws.len() ==> plain_word(#[trigger] ws[i]),
    ensures
        words(join_words(ws)) == ws,
        forall|k: int| 0 <= k < join_words(ws).len() ==> #[trigger] join_words(ws)[k] == ' ' || plain(
            join_words(ws)[k],
        ),
    decreases ws.len(),
{
    if ws.len() == 0 {
        assert(words(Seq::<char>::empty()) =~= ws);
    } else if ws.len() == 1 {
        assert(plain_word(ws[0]));
        lemma_words_of_word(ws[0]);
        assert(seq![ws[0]] =~= ws);
    } else {
        let p = ws.drop_last();
        assert forall|i: int| 0 <= i < p.len() implies plain_word(#[trigger] p[i]) by {
            assert(p[i] == ws[i]);
        }
        lemma_words_of_join(p);
        let l = ws.last();
        assert(plain_word(ws[ws.len() - 1]));
        lemma_words_of_word(l);
        lemma_words_split(join_words(p), l);
        assert(words(join_words(p)) + seq![l] =~= ws);
        let j = join_words(ws);
        let jp = join_words(p);
        assert(j == jp + seq![' '] + l);
        assert forall|k: int| 0 <= k < j.len() implies #[trigger] j[k] == ' ' || plain(j[k]) by {
            if k < jp.len() {
                assert(j[k] == jp[k]);
            } else if k > jp.len() {
                assert(j[k] == l[k - jp.len() - 1]);
            }
        }
    }
}

/// Formatting an ASCII name twice gives what formatting it once gives: the
/// display name of an ASCII name is ASCII, and is its own display name.
pub proof fn lemma_display_name_idempotent(name: Seq<char>)
    requires
        all_ascii(name),
    ensures
        all_ascii(ascii_display_name(name)),
        ascii_display_name(ascii_display_name(name)) == ascii_display_name(name),
{
    let sp = underscores_spaced(name);
    assert(spaced_plain(sp)) by {
        assert forall|k: int| 0 <= k < sp.len() implies is_white_space(#[trigger] sp[k]) || plain(sp[k]) by {
            assert((name[k] as u32) < 128);
        }
    }
    lemma_words_plain(sp);
    let ws = words(sp);
    let caps = ws.map_values(|w: Seq<char>| ascii_capitalized(w));
    assert forall|i: int| 0 <= i < caps.len() implies plain_word(#[trigger] caps[i]) by {
        lemma_capitalized_plain(ws[i]);
    }
    lemma_words_of_join(caps);
    let t = join_words(caps);
    assert(all_ascii(t)) by {
        assert forall|k: int| 0 <= k < t.len() implies (#[trigger] t[k] as u32) < 128 by {
            assert(t[k] == ' ' || plain(t[k]));
        }
    }
    assert(underscores_spaced(t) =~= t) by {
        assert forall|k: int| 0 <= k < t.len() implies #[trigger] underscores_spaced(t)[k] == t[k] by {
            assert(t[k] == ' ' || plain(t[k]));
        }
    }
    let caps2 = words(underscores_spaced(t)).map_values(|w: Seq<char>| ascii_capitalized(w));
    assert(caps2 =~= caps) by {
        assert forall|i: int| 0 <= i < caps.len() implies #[trigger] caps2[i] == caps[i] by {
            lemma_capitalized_plain(ws[i]);
        }
    }
}

/// Plain words joined by single spaces start and end with a plain
/// character and never hold two white-space characters side by side.
proof fn lemma_join_shape(ws: Seq<Seq<char>>)
    requires
        forall|i: int| 0 <= i < ws.len() ==> plain_word(#[trigger] ws[i]),
    ensures
        ws.len() > 0 ==> join_words(ws).len() > 0 && plain(join_words(ws)[0]) && plain(
            join_words(ws)[join_words(ws).len() - 1],
        ),
        forall|k: int, m: int|
            0 <= k && m == k + 1 && m < join_words(ws).len() ==> !(is_white_space(
                #[trigger] join_words(ws)[k],
            ) && is_white_space(#[trigger] join_words(ws)[m])),
    decreases ws.len(),
{
    if ws.len() == 1 {
        assert(plain_word(ws[0]));
    } else if ws.len() > 1 {
        let p = ws.drop_last();
        assert forall|i: int| 0 <= i < p.len() implies plain_word(#[trigger] p[i]) by {
            assert(p[i] == ws[i]);
        }
        lemma_join_shape(p);
        let l = ws.last();
        assert(plain_word(ws[ws.len() - 1]));
        let j = join_words(ws);
        let jp = join_words(p);
        assert(j == jp + seq![' '] + l);
        assert(j[0] == jp[0]);
        assert(j[j.len() - 1] == l[l.len() - 1]);
        assert forall|k: int, m: int|
            0 <= k && m == k + 1 && m < j.len() implies !(is_white_space(#[trigger] j[k]) && is_white_space(
                #[trigger] j[m],
            )) by {
            if m < jp.len() {
                assert(j[k] == jp[k] && j[m] == jp[m]);
            } else if m == jp.len() {
                assert(j[k] == jp[jp.len() - 1]);
            } else if k == jp.len() {
                assert(j[m] == l[0]);
            } else {
                assert(j[k] == l[k - jp.len() - 1] && j[m] == l[m - jp.len() - 1]);
            }
        }
    }
}

/// The shape of an ASCII name's display name: no underscore, no white
/// space at either end, and never two white-space characters side by side.
pub proof fn lemma_display_name_shape(name: Seq<char>)
    requires
        all_ascii(name),
    ensures
        forall|k: int|
            0 <= k < ascii_display_name(name).len() ==> #[trigger] ascii_display_name(name)[k] != '_',
        ascii_display_name(name).len() > 0 ==> !is_white_space(ascii_display_name(name)[0])
            && !is_white_space(ascii_display_name(name)[ascii_display_name(name).len() - 1]),
        forall|k: int, m: int|
            0 <= k && m == k + 1 && m < ascii_display_name(name).len() ==> !(is_white_space(
                #[trigger] ascii_display_name(name)[k],
            ) && is_white_space(#[trigger] ascii_display_name(name)[m])),
{
    let sp = underscores_spaced(name);
    assert(spaced_plain(sp)) by {
        assert forall|k: int| 0 <= k < sp.len() implies is_white_space(#[trigger] sp[k]) || plain(sp[k]) by {
            assert((name[k] as u32) < 128);
        }
    }
    lemma_words_plain(sp);
    let ws = words(sp);
    let caps = ws.map_values(|w: Seq<char>| ascii_capitalized(w));
    assert forall|i: int| 0 <= i < caps.len() implies plain_word(#[trigger] caps[i]) by {
        lemma_capitalized_plain(ws[i]);
    }
    lemma_words_of_join(caps);
    lemma_join_shape(caps);
    let t = join_words(caps);
    assert(t == ascii_display_name(name));
    assert forall|k: int| 0 <= k < t.len() implies #[trigger] t[k] != '_' by {
        assert(t[k] == ' ' || plain(t[k]));
    }
    if caps.len() == 0 {
        assert(t.len() == 0);
    }
}

/// `name` with underscores read as spaces, split into words, each word's
/// first character uppercased, joined by single spaces.
pub fn format_item_name(name: &str) -> (r: String)
    ensures
        r@ == display_name(name@),
        all_ascii(name@) ==> r@ == ascii_display_name(name@),
{
    let cs = crate::text::chars_of(name);
    let ghost spaced = underscores_spaced(name@);
    let mut out = String::new();
    let mut prev_white = true;
    let mut any_word = false;
    let mut i: usize = 0;
    while i < cs.len()
        invariant
            cs@ == name@,
            spaced == underscores_spaced(name@),
            i <= cs@.len(),
            out@ == join_words(words(spaced.take(i as int)).map_values(|w: Seq<char>| capitalized(w))),
            all_ascii(name@) ==> words(spaced.take(i as int)).map_values(|w: Seq<char>| capitalized(w))
                == words(spaced.take(i as int)).map_values(|w: Seq<char>| ascii_capitalized(w)),
            prev_white == (i == 0 || is_white_space(spaced[i - 1])),
            any_word == (words(spaced.take(i as int)).len() > 0),
        decreases cs@.len() - i,
    {
        let raw = cs[i];
        let c = if raw == '_' { ' ' } else { raw };
        let ghost pre = spaced.take(i as int);
        let ghost next = spaced.take(i + 1);
        proof {
            assert(next.drop_last() =~= pre);
            assert(next.last() == c);
            lemma_words_shape(pre);
            if i > 0 {
                assert(next[next.len() - 2] == spaced[i - 1]);
                assert(pre.last() == spaced[i - 1]);
            }
        }
        let ghost ws = words(pre);
        let ghost caps = ws.map_values(|w: Seq<char>| capitalized(w));
        let ghost acaps = ws.map_values(|w: Seq<char>| ascii_capitalized(w));
        if crate::text::is_whitespace(c) {
            prev_white = true;
        } else if !prev_white {
            crate::text::string_push(&mut out, c);
            proof {
                let nw = ws.update(ws.len() - 1, ws.last().push(c));
                assert(words(next) == nw);
                let ncaps = nw.map_values(|w: Seq<char>| capitalized(w));
                assert(ws.last().len() > 0);
                assert(capitalized(ws.last().push(c)) =~= capitalized(ws.last()).push(c));
                assert(ncaps =~= caps.update(caps.len() - 1, caps.last().push(c)));
                if caps.len() == 1 {
                    assert(join_words(ncaps) =~= join_words(caps).push(c));
                } else {
                    assert(ncaps.drop_last() =~= caps.drop_last());
                    assert(join_words(ncaps) =~= join_words(caps).push(c));
                }
                if all_ascii(name@) {
                    let nacaps = nw.map_values(|w: Seq<char>| ascii_capitalized(w));
                    assert(ascii_capitalized(ws.last().push(c)) =~= ascii_capitalized(ws.last()).push(c));
                    assert(caps[caps.len() - 1] == acaps[acaps.len() - 1]);
                    assert(nacaps =~= ncaps);
                }
            }
        } else {
            if any_word {
                crate::text::string_push(&mut out, ' ');
            }
            let up = crate::text::char_to_uppercase(c);
            out.append(up.as_str());
            prev_white = false;
            proof {
                let nw = ws.push(seq![c]);
                assert(words(next) == nw);
                let ncaps = nw.map_values(|w: Seq<char>| capitalized(w));
                assert(capitalized(seq![c]) =~= char_uppercase(c));
                assert(ncaps =~= caps.push(char_uppercase(c)));
                assert(ncaps.drop_last() =~= caps);
                if caps.len() == 0 {
                    assert(join_words(ncaps) =~= char_uppercase(c));
                } else {
                    assert(join_words(ncaps) =~= join_words(caps) + seq![' '] + char_uppercase(c));
                }
                if all_ascii(name@) {
                    assert((name@[i as int] as u32) < 128);
                    let nacaps = nw.map_values(|w: Seq<char>| ascii_capitalized(w));
                    assert(ascii_capitalized(seq![c]) =~= seq![ascii_upper(c)]);
                    assert(nacaps =~= acaps.push(seq![ascii_upper(c)]));
                    assert(nacaps =~= ncaps);
                }
            }
            any_word = true;
        }
        i += 1;
    }
    proof {
        assert(spaced.take(cs@.len() as int) =~= spaced);
    }
    out
}


/// Draws the price tags and the status display with an immediate-mode
/// GUI instead of the pixel buffer.
pub struct EguiRenderer;

/// What a text request shows: position, text, color and size.
pub open spec fn text_view(t: TextOp) -> (int, int, Seq<char>, u32, u32) {
    (t.x as int, t.y as int, t.text@, t.color, t.size)
}

/// What a list of text requests shows, in order.
pub open spec fn text_views(ts: Seq<TextOp>) -> Seq<(int, int, Seq<char>, u32, u32)> {
    ts.map_values(|t: TextOp| text_view(t))
}

/// The number of bytes of the UTF-8 encoding of `s`.
pub open spec fn utf8_len(s: Seq<char>) -> int {
    encode_utf8(s).len() as int
}

/// A price as a card shows it: `"{p}g"`, or `"---"` when unknown.
pub open spec fn price_text(p: Option<u32>) -> Seq<char> {
    match p {
        Some(v) => decimal(v as nat) + seq!['g'],
        None => seq!['-', '-', '-'],
    }
}

/// The card's title: the item's display name.
pub open spec fn card_title(card: ItemCard) -> Seq<char> {
    display_name(card.name@)
}

/// The text of the card's popularity badge.
pub open spec fn card_badge(card: ItemCard) -> Seq<char> {
    uppercase(card.popularity@)
}

/// The price line of the card, marked in New Game+.
pub open spec fn card_price(card: ItemCard) -> Seq<char> {
    if card.is_ng_plus {
        "[NG+] "@ + price_text(card.price)
    } else {
        price_text(card.price)
    }
}

/// The width of a card: 8 pixels per byte of its title, badge and price,
/// plus 40, and at least 120.
pub open spec fn card_width(card: ItemCard) -> int {
    max(
        utf8_len(card_title(card)) * 8 + utf8_len(card_badge(card)) * 8 + utf8_len(price_text(card.price)) * 8
            + 40,
        120,
    )
}

/// Left edge of a card: centered over the item, clamped at 0.
pub open spec fn card_left(card: ItemCard) -> int {
    sat_sub(card.x + card.width / 2, card_width(card) / 2)
}

/// Top edge of a card: 42 pixels high, 8 above the item, clamped at 0.
pub open spec fn card_top(card: ItemCard) -> int {
    sat_sub(card.y as int, 50)
}

/// How a popularity reads on a badge.
#[derive(Debug, Clone, Copy, PartialEq, Eq, Structural)]
pub enum BadgeTone {
    High,
    Low,
    Other,
}

/// The tone of a popularity, whatever its case.
pub open spec fn badge_tone(p: Seq<char>) -> BadgeTone {
    let l = lowercase(p);
    if l == "high"@ {
        BadgeTone::High
    } else if l == "low"@ {
        BadgeTone::Low
    } else {
        BadgeTone::Other
    }
}

/// The badge color: green for a high popularity, red for a low one, orange
/// otherwise.
pub open spec fn badge_color(card: ItemCard) -> u32 {
    match badge_tone(card.popularity@) {
        BadgeTone::High => color::GREEN,
        BadgeTone::Low => color::RED,
        BadgeTone::Other => color::ORANGE,
    }
}

/// The texts of a price tag.
pub struct CardLabels {
    pub badge: String,
    pub title: String,
    pub price: String,
    /// The price, marked in New Game+.
    pub price_line: String,
    pub tone: BadgeTone,
}

/// Works out the texts of a price tag and the tone of its badge.
pub fn card_labels(card: &ItemCard) -> (l: CardLabels)
    ensures
        l.badge@ == card_badge(*card),
        l.title@ == card_title(*card),
        l.price@ == price_text(card.price),
        l.price_line@ == card_price(*card),
        l.tone == badge_tone(card.popularity@),
{
    let title = format_item_name(card.name.as_str());
    let badge = crate::text::to_uppercase(card.popularity.as_str());
    let price = price_string(card.price);
    let lower = crate::text::to_lowercase(card.popularity.as_str());
    let tone = if crate::text::str_eq(lower.as_str(), "high") {
        BadgeTone::High
    } else if crate::text::str_eq(lower.as_str(), "low") {
        BadgeTone::Low
    } else {
        BadgeTone::Other
    };
    let price_line = if card.is_ng_plus {
        let mut s = String::from_str("[NG+] ");
        s.append(price.as_str());
        s
    } else {
        price.clone()
    };
    CardLabels { badge, title, price, price_line, tone }
}

/// The card's layout stays within the address range.
pub open spec fn card_fits(card: ItemCard) -> bool {
    card_width(card) + card.x + card.width + 64 <= usize::MAX
}

/// The buffer after drawing a card: its dark body with a green outline,
/// then the popularity badge.
pub open spec fn card_canvas(buf: Seq<u32>, w: int, h: int, card: ItemCard) -> Seq<u32> {
    let (cx, cy) = (card_left(card), card_top(card));
    let body = carded(buf, w, h, cx, cy, card_width(card), 42, 8, color::DARK_BG, Some(color::GREEN));
    carded(body, w, h, cx + 8, cy + 10, 40, 22, 4, badge_color(card), None)
}

/// Drawing a price tag (`draw_item_card`) leaves every canvas pixel
/// outside the tag and its shadow as it was.
pub proof fn lemma_price_tag_stays_in_its_box(buf: Seq<u32>, w: int, h: int, card: ItemCard, px: int, py: int)
    requires
        0 <= px < w,
        0 <= py < h,
        py * w + px < buf.len(),
        !(card_left(card) <= px < card_left(card) + card_width(card) + 3 && card_top(card) <= py < card_top(card)
            + 45),
    ensures
        card_canvas(buf, w, h, card)[py * w + px] == buf[py * w + px],
{
    let (cx, cy) = (card_left(card), card_top(card));
    let body = carded(buf, w, h, cx, cy, card_width(card), 42, 8, color::DARK_BG, Some(color::GREEN));
    lemma_card_stays_in_its_box(buf, w, h, cx, cy, card_width(card), 42, 8, color::DARK_BG, Some(color::GREEN), px, py);
    lemma_card_stays_in_its_box(body, w, h, cx + 8, cy + 10, 40, 22, 4, badge_color(card), None, px, py);
}

/// The texts of a card: the badge, the title and the price line in gold.
pub open spec fn card_views(card: ItemCard) -> Seq<(int, int, Seq<char>, u32, u32)> {
    let (cx, cy) = (card_left(card), card_top(card));
    seq![
        (cx + 14, cy + 14, card_badge(card), color::WHITE, 11u32),
        (cx + 54, cy + 4, card_title(card), color::WHITE, 14u32),
        (cx + 54, cy + 22, card_price(card), 0xFF_FF_D7_00u32, 12u32),
    ]
}

/// A price as a card shows it.
pub fn price_string(p: Option<u32>) -> (s: String)
    ensures
        s@ == price_text(p),
{
    let mut s = String::new();
    match p {
        Some(v) => {
            crate::text::push_decimal(&mut s, v as u64);
            crate::text::string_push(&mut s, 'g');
        },
        None => {
            s.append("---");
            proof {
                reveal_strlit("---");
            }
        },
    }
    proof {
        assert(s@ =~= price_text(p));
    }
    s
}

impl<'a> Renderer<'a> {
    /// Draws the price tag of a recognised item centered above it: a dark
    /// card with a green outline holding a popularity badge; gives the texts
    /// to write on it.
    pub fn draw_item_card(&mut self, card: &ItemCard) -> (texts: Vec<TextOp>)
        requires
            old(self).wf(),
            card_fits(*card),
        ensures
            final(self).width == old(self).width,
            final(self).height == old(self).height,
            final(self).buf@ == card_canvas(
                old(self).buf@,
                old(self).width as int,
                old(self).height as int,
                *card,
            ),
            text_views(texts@) == card_views(*card),
    {
        let labels = card_labels(card);
        let tl = labels.title.as_str().len();
        let pl = labels.badge.as_str().len();
        let prl = labels.price.as_str().len();
        let raw = tl * 8 + pl * 8 + prl * 8 + 40;
        let card_w = if raw >= 120 { raw } else { 120 };
        let card_h: usize = 42;
        let center = card.x as usize + card.width as usize / 2;
        let half = card_w / 2;
        let card_x = if center >= half { center - half } else { 0 };
        let card_y = if card.y as usize >= card_h + 8 { card.y as usize - (card_h + 8) } else { 0 };
        let pop_color = match labels.tone {
            BadgeTone::High => color::GREEN,
            BadgeTone::Low => color::RED,
            BadgeTone::Other => color::ORANGE,
        };
        self.draw_rounded_rect(card_x, card_y, card_w, card_h, 8, color::DARK_BG, Some(color::GREEN));
        let badge_x = card_x + 8;
        let badge_y = card_y + 10;
        self.draw_rounded_rect(badge_x, badge_y, 40, 22, 4, pop_color, None);
        let mut texts: Vec<TextOp> = Vec::new();
        texts.push(TextOp { x: badge_x + 6, y: badge_y + 4, text: labels.badge, color: color::WHITE, size: 11 });
        texts.push(TextOp { x: card_x + 54, y: card_y + 4, text: labels.title, color: color::WHITE, size: 14 });
        texts.push(
            TextOp { x: card_x + 54, y: card_y + 22, text: labels.price_line, color: 0xFF_FF_D7_00, size: 12 },
        );
        proof {
            assert(text_views(texts@) =~= card_views(*card));
        }
        texts
    }
}


/// One step of a frame, as the contracts see it.
pub enum StepView {
    /// A solid box: left, top, width, height, color.
    Fill(int, int, int, int, u32),
    /// A card with its shadow: left, top, width, height, corner radius,
    /// fill color, outline color.
    Panel(int, int, int, int, int, u32, Option<u32>),
    /// An outline: rectangle, thickness, color, caption.
    Outline(crate::matchers::Rect, int, u32, Seq<char>),
    /// A price tag.
    Card(ItemCard),
    /// A text: position, text, color, size.
    Text((int, int, Seq<char>, u32, u32)),
}

/// One step of a frame. Texts are written where they stand in the list,
/// over what came before and under what comes after.
#[derive(Debug)]
pub enum DrawOp {
    Fill { x: usize, y: usize, width: usize, height: usize, color: Argb },
    Panel { x: usize, y: usize, width: usize, height: usize, radius: usize, fill: Argb, border: Option<Argb> },
    Outline(DebugRect),
    Card(ItemCard),
    Text(TextOp),
}

pub open spec fn step_view(op: DrawOp) -> StepView {
    match op {
        DrawOp::Fill { x, y, width, height, color } => StepView::Fill(x as int, y as int, width as int, height as int, color),
        DrawOp::Panel { x, y, width, height, radius, fill, border } => StepView::Panel(
            x as int,
            y as int,
            width as int,
            height as int,
            radius as int,
            fill,
            border,
        ),
        DrawOp::Outline(d) => StepView::Outline(d.rect, d.thickness as int, d.color, d.label@),
        DrawOp::Card(c) => StepView::Card(c),
        DrawOp::Text(t) => StepView::Text(text_view(t)),
    }
}

/// What a list of steps does, in order.
pub open spec fn step_views(ops: Seq<DrawOp>) -> Seq<StepView> {
    ops.map_values(|o: DrawOp| step_view(o))
}

/// Texts as steps.
pub open spec fn text_steps(ts: Seq<(int, int, Seq<char>, u32, u32)>) -> Seq<StepView> {
    ts.map_values(|t: (int, int, Seq<char>, u32, u32)| StepView::Text(t))
}

/// The step's geometry stays within the address range.
pub open spec fn step_fits(v: StepView) -> bool {
    match v {
        StepView::Fill(x, y, w, h, _) => 0 <= x && 0 <= y && 0 <= w && 0 <= h && x + w <= usize::MAX && y + h <= usize::MAX,
        StepView::Panel(x, y, w, h, r, _, _) => 0 <= x && 0 <= y && 0 <= w && 0 <= h && 0 <= r && x + w + 3
            <= usize::MAX && y + h + 3 <= usize::MAX && radius_ok(r, w, h),
        StepView::Outline(rect, t, _, _) => 0 <= t <= u32::MAX && rect.x + rect.width + 2 <= usize::MAX && rect.y
            + rect.height + 2 <= usize::MAX && rect.x + t + 2 <= usize::MAX && rect.y + t + 2 <= usize::MAX,
        StepView::Card(c) => card_fits(c),
        StepView::Text(_) => true,
    }
}

/// Every step of the list fits.
pub open spec fn steps_fit(ops: Seq<DrawOp>) -> bool {
    forall|i: int| 0 <= i < ops.len() ==> step_fits(#[trigger] step_view(ops[i]))
}

/// The buffer after a step.
pub open spec fn step_canvas(buf: Seq<u32>, w: int, h: int, v: StepView) -> Seq<u32> {
    match v {
        StepView::Fill(x, y, rw, rh, c) => painted(buf, w, h, x, y, rw, rh, Shape::Solid, 0, c),
        StepView::Panel(x, y, rw, rh, r, fill, border) => carded(buf, w, h, x, y, rw, rh, r, fill, border),
        StepView::Outline(rect, t, c, _) => outlined(buf, w, h, rect, t, c),
        StepView::Card(card) => card_canvas(buf, w, h, card),
        StepView::Text(_) => buf,
    }
}

/// The texts a step writes.
pub open spec fn step_texts(v: StepView) -> Seq<(int, int, Seq<char>, u32, u32)> {
    match v {
        StepView::Outline(rect, t, c, label) => if label.len() > 0 {
            seq![(rect.x + t + 2, rect.y + t + 2, label, c, 12u32)]
        } else {
            Seq::empty()
        },
        StepView::Card(card) => card_views(card),
        StepView::Text(t) => seq![t],
        _ => Seq::empty(),
    }
}

/// Appends a step to a frame.
pub(crate) fn push_step(ops: &mut Vec<DrawOp>, op: DrawOp)
    requires
        steps_fit(old(ops)@),
        step_fits(step_view(op)),
    ensures
        final(ops)@ == old(ops)@.push(op),
        step_views(final(ops)@) == step_views(old(ops)@).push(step_view(op)),
        steps_fit(final(ops)@),
{
    ops.push(op);
    proof {
        assert(step_views(ops@) =~= step_views(old(ops)@).push(step_view(op)));
        assert forall|i: int| 0 <= i < ops@.len() implies step_fits(#[trigger] step_view(ops@[i])) by {
            if i < old(ops)@.len() {
                assert(ops@[i] == old(ops)@[i]);
            }
        }
    }
}

/// Appends a text to a frame.
pub(crate) fn push_text(ops: &mut Vec<DrawOp>, x: usize, y: usize, text: String, color: Argb, size: u32)
    requires
        steps_fit(old(ops)@),
    ensures
        step_views(final(ops)@) == step_views(old(ops)@).push(
            StepView::Text((x as int, y as int, text@, color, size)),
        ),
        steps_fit(final(ops)@),
{
    push_step(ops, DrawOp::Text(TextOp { x, y, text, color, size }));
}

/// Whether the layout of the price tag fits.
pub fn card_fits_check(card: &ItemCard) -> (b: bool)
    ensures
        b == card_fits(*card),
{
    let labels = card_labels(card);
    let tl = labels.title.as_str().as_bytes().len() as u128;
    let bl = labels.badge.as_str().as_bytes().len() as u128;
    let pl = labels.price.as_str().as_bytes().len() as u128;
    let raw = tl * 8 + bl * 8 + pl * 8 + 40;
    let cw = if raw >= 120 { raw } else { 120 };
    cw + card.x as u128 + card.width as u128 + 64 <= usize::MAX as u128
}

impl DrawOp {
    /// Whether the step's geometry stays within the address range.
    pub fn fits(&self) -> (b: bool)
        ensures
            b == step_fits(step_view(*self)),
    {
        let m = usize::MAX as u128;
        match self {
            DrawOp::Fill { x, y, width, height, .. } => *x as u128 + *width as u128 <= m && *y as u128
                + *height as u128 <= m,
            DrawOp::Panel { x, y, width, height, radius, .. } => *x as u128 + *width as u128 + 3 <= m && *y as u128
                + *height as u128 + 3 <= m && (*radius <= 0x7FFF_FFFF || *width / 2 <= 0x7FFF_FFFF || *height / 2
                <= 0x7FFF_FFFF),
            DrawOp::Outline(d) => d.rect.x as u128 + d.rect.width as u128 + 2 <= m && d.rect.y as u128
                + d.rect.height as u128 + 2 <= m && d.rect.x as u128 + d.thickness as u128 + 2 <= m
                && d.rect.y as u128 + d.thickness as u128 + 2 <= m,
            DrawOp::Card(c) => card_fits_check(c),
            DrawOp::Text(_) => true,
        }
    }
}

impl<'a> Renderer<'a> {
    /// Performs one step of a frame and gives the texts to write right
    /// after it, before the next step.
    pub fn draw_op(&mut self, op: &DrawOp) -> (texts: Vec<TextOp>)
        requires
            old(self).wf(),
            step_fits(step_view(*op)),
        ensures
            final(self).width == old(self).width,
            final(self).height == old(self).height,
            final(self).buf@ == step_canvas(
                old(self).buf@,
                old(self).width as int,
                old(self).height as int,
                step_view(*op),
            ),
            text_views(texts@) == step_texts(step_view(*op)),
    {
        let mut texts: Vec<TextOp> = Vec::new();
        match op {
            DrawOp::Fill { x, y, width, height, color } => {
                self.fill_region(*x, *y, *width, *height, Shape::Solid, 0, *color);
            },
            DrawOp::Panel { x, y, width, height, radius, fill, border } => {
                self.draw_rounded_rect(*x, *y, *width, *height, *radius, *fill, *border);
            },
            DrawOp::Outline(d) => {
                match self.draw_debug_rect(d) {
                    Some(t) => texts.push(t),
                    None => {},
                }
            },
            DrawOp::Card(c) => {
                texts = self.draw_item_card(c);
            },
            DrawOp::Text(t) => {
                texts.push(TextOp { x: t.x, y: t.y, text: t.text.clone(), color: t.color, size: t.size });
            },
        }
        proof {
            assert(text_views(texts@) =~= step_texts(step_view(*op)));
        }
        texts
    }
}

} // verus!
