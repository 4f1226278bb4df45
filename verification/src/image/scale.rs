//! Scaling by the nearest pixel, layering and blending of images.

use crate::coord::Coord;
use crate::image::blend::blend_spec;
use crate::image::blend::over;
use crate::image::blend::under;
use crate::image::blend::BlendType;
use crate::image::zeroed;
use crate::image::Color;
use crate::image::Image;
use vstd::prelude::*;

verus! {

/// The place in a side of `n` pixels that place `i` of a side of `new_n`
/// pixels is taken from: `i * n / new_n` rounded to the nearest, a half
/// upwards, and no further than the last place.
pub open spec fn nearest_index(i: int, new_n: int, n: int) -> int {
    let scaled = (2 * i * n + new_n) / (2 * new_n);
    if scaled > n - 1 {
        n - 1
    } else {
        scaled
    }
}

fn nearest(i: usize, new_n: usize, n: usize) -> (src: usize)
    requires
        i < new_n,
        0 < n,
        new_n * 4 <= usize::MAX,
        n * 4 <= usize::MAX,
    ensures
        src == nearest_index(i as int, new_n as int, n as int),
        src < n,
{
    assert(2 * i * n <= 2 * 0x4000_0000_0000_0000 * 0x4000_0000_0000_0000) by (nonlinear_arith)
        requires
            0 <= i <= 0x4000_0000_0000_0000,
            0 <= n <= 0x4000_0000_0000_0000,
    ;
    let num: u128 = 2 * (i as u128) * (n as u128) + new_n as u128;
    let den: u128 = 2 * new_n as u128;
    let scaled: u128 = num / den;
    if scaled > (n - 1) as u128 {
        n - 1
    } else {
        scaled as usize
    }
}

impl Image {
    /// The colour of the pixel in column `x` of row `y`.
    pub open spec fn color_at_2d(&self, x: int, y: int) -> Color<u8> {
        self.color_at(x + y * self.w)
    }

    /// The image scaled to `new_w` by `new_h` pixels, each pixel taken from
    /// the nearest one of `self`.
    pub fn scale_nearest(&self, new_w: usize, new_h: usize) -> (out: Image)
        requires
            self.wf(),
            self.w > 0,
            self.h > 0,
            new_w > 0,
            new_h > 0,
            new_w * new_h * 4 <= usize::MAX,
        ensures
            out.wf(),
            out.w == new_w,
            out.h == new_h,
            out.order() == self.order(),
            forall|x: int, y: int|
                0 <= x < new_w && 0 <= y < new_h ==> #[trigger] out.color_at_2d(x, y)
                    == self.color_at_2d(
                    nearest_index(x, new_w as int, self.w as int),
                    nearest_index(y, new_h as int, self.h as int),
                ),
    {
        proof {
            assert(new_w * 4 <= new_w * new_h * 4 && new_h * 4 <= new_w * new_h * 4)
                by (nonlinear_arith)
                requires
                    new_w >= 1,
                    new_h >= 1,
            ;
            assert(self.w * 4 <= self.w * self.h * 4 && self.h * 4 <= self.w * self.h * 4)
                by (nonlinear_arith)
                requires
                    self.w >= 1,
                    self.h >= 1,
            ;
        }
        let mut out = zeroed(self.pixel_order, new_w, new_h);
        let mut x: usize = 0;
        while x < new_w
            invariant
                self.wf(),
                self.w > 0,
                self.h > 0,
                new_w * 4 <= usize::MAX,
                new_h * 4 <= usize::MAX,
                self.w * 4 <= usize::MAX,
                self.h * 4 <= usize::MAX,
                out.wf(),
                out.w == new_w,
                out.h == new_h,
                out.order() == self.order(),
                x <= new_w,
                forall|xx: int, yy: int|
                    0 <= xx < x && 0 <= yy < new_h ==> #[trigger] out.color_at_2d(xx, yy)
                        == self.color_at_2d(
                        nearest_index(xx, new_w as int, self.w as int),
                        nearest_index(yy, new_h as int, self.h as int),
                    ),
            decreases new_w - x,
        {
            let mut y: usize = 0;
            while y < new_h
                invariant
                    self.wf(),
                    self.w > 0,
                    self.h > 0,
                    new_w * 4 <= usize::MAX,
                    new_h * 4 <= usize::MAX,
                    self.w * 4 <= usize::MAX,
                    self.h * 4 <= usize::MAX,
                    out.wf(),
                    out.w == new_w,
                    out.h == new_h,
                    out.order() == self.order(),
                    x < new_w,
                    y <= new_h,
                    forall|xx: int, yy: int|
                        (0 <= xx < x && 0 <= yy < new_h) || (xx == x && 0 <= yy < y)
                            ==> #[trigger] out.color_at_2d(xx, yy) == self.color_at_2d(
                            nearest_index(xx, new_w as int, self.w as int),
                            nearest_index(yy, new_h as int, self.h as int),
                        ),
                decreases new_h - y,
            {
                let src_x = nearest(x, new_w, self.w);
                let src_y = nearest(y, new_h, self.h);
                proof {
                    lemma_index_inside(src_x as int, src_y as int, self.w as int, self.h as int);
                    lemma_index_inside(x as int, y as int, new_w as int, new_h as int);
                }
                let color = self.get_pixel2d(Coord::new(src_x, src_y));
                let ghost before = out;
                out.set2d(Coord::new(x, y), color);
                proof {
                    assert forall|xx: int, yy: int|
                        (0 <= xx < x && 0 <= yy < new_h) || (xx == x && 0 <= yy < y + 1) implies #[trigger] out.color_at_2d(
                        xx,
                        yy,
                    ) == self.color_at_2d(
                        nearest_index(xx, new_w as int, self.w as int),
                        nearest_index(yy, new_h as int, self.h as int),
                    ) by {
                        lemma_index_inside(xx, yy, new_w as int, new_h as int);
                        if xx == x && yy == y {
                        } else {
                            lemma_index_differs(xx, yy, x as int, y as int, new_w as int);
                            assert(out.color_at_2d(xx, yy) == before.color_at_2d(xx, yy));
                        }
                    }
                }
                y += 1;
            }
            x += 1;
        }
        out
    }

    /// The size of the largest image of the shape of `self` inside `new_w` by
    /// `new_h`: the side that fills its room takes the room, the other keeps
    /// the proportion, rounded down, and neither is less than one pixel.
    pub open spec fn aspect_size(&self, new_w: usize, new_h: usize) -> (int, int) {
        let (w, h) = if new_w * self.h <= new_h * self.w {
            (new_w as int, (self.h * new_w) / (self.w as int))
        } else {
            ((self.w * new_h) / (self.h as int), new_h as int)
        };
        (
            if w < 1 {
                1
            } else {
                w
            },
            if h < 1 {
                1
            } else {
                h
            },
        )
    }

    /// The image scaled to the largest size of its own shape inside `new_w`
    /// by `new_h`.
    pub fn scale_keep_aspect(&self, new_w: usize, new_h: usize) -> (out: Image)
        requires
            self.wf(),
            self.w > 0,
            self.h > 0,
            new_w > 0,
            new_h > 0,
            new_w * new_h * 4 <= usize::MAX,
        ensures
            out.wf(),
            out.w == self.aspect_size(new_w, new_h).0,
            out.h == self.aspect_size(new_w, new_h).1,
            out.w <= new_w,
            out.h <= new_h,
            out.order() == self.order(),
            forall|x: int, y: int|
                0 <= x < out.w && 0 <= y < out.h ==> #[trigger] out.color_at_2d(x, y)
                    == self.color_at_2d(
                    nearest_index(x, out.w as int, self.w as int),
                    nearest_index(y, out.h as int, self.h as int),
                ),
    {
        proof {
            assert(new_w * 4 <= new_w * new_h * 4 && new_h * 4 <= new_w * new_h * 4)
                by (nonlinear_arith)
                requires
                    new_w >= 1,
                    new_h >= 1,
            ;
            assert(self.w * 4 <= self.w * self.h * 4 && self.h * 4 <= self.w * self.h * 4)
                by (nonlinear_arith)
                requires
                    self.w >= 1,
                    self.h >= 1,
            ;
            assert(new_w * self.h <= 0x4000_0000_0000_0000 * 0x4000_0000_0000_0000 && new_h
                * self.w <= 0x4000_0000_0000_0000 * 0x4000_0000_0000_0000) by (nonlinear_arith)
                requires
                    0 <= new_w <= 0x4000_0000_0000_0000,
                    0 <= new_h <= 0x4000_0000_0000_0000,
                    0 <= self.w <= 0x4000_0000_0000_0000,
                    0 <= self.h <= 0x4000_0000_0000_0000,
            ;
        }
        let by_width: u128 = new_w as u128 * self.h as u128;
        let by_height: u128 = new_h as u128 * self.w as u128;
        let (w, h): (usize, usize) = if by_width <= by_height {
            proof {
                assert((self.h * new_w) / (self.w as int) <= new_h) by (nonlinear_arith)
                    requires
                        new_w * self.h <= new_h * self.w,
                        self.w > 0,
                ;
            }
            (new_w, (by_width / self.w as u128) as usize)
        } else {
            proof {
                assert((self.w * new_h) / (self.h as int) <= new_w) by (nonlinear_arith)
                    requires
                        new_h * self.w < new_w * self.h,
                        self.h > 0,
                ;
            }
            ((by_height / self.h as u128) as usize, new_h)
        };
        let w = if w < 1 {
            1
        } else {
            w
        };
        let h = if h < 1 {
            1
        } else {
            h
        };
        proof {
            assert(w * h * 4 <= new_w * new_h * 4) by (nonlinear_arith)
                requires
                    0 <= w <= new_w,
                    0 <= h <= new_h,
            ;
        }
        self.scale_nearest(w, h)
    }

    /// Puts `other_img` over the middle of `self`: where the two overlap,
    /// the pixels of `self` take the colours of `other_img`, whatever the
    /// channel orders of the two.
    pub fn layer_image_over(&mut self, other_img: &Image)
        requires
            old(self).wf(),
            other_img.wf(),
            other_img.w <= old(self).w,
            other_img.h <= old(self).h,
        ensures
            final(self).wf(),
            final(self).w == old(self).w,
            final(self).h == old(self).h,
            final(self).order() == old(self).order(),
            forall|x: int, y: int|
                0 <= x < old(self).w && 0 <= y < old(self).h ==> #[trigger] final(self).color_at_2d(x, y) == layered(old(self), other_img, x, y),
    {
        let col_skip = (self.w - other_img.w) / 2;
        let y_center_start = (self.h - other_img.h) / 2;
        let (ow, oh) = (other_img.w, other_img.h);
        let mut y: usize = 0;
        while y < oh
            invariant
                self.wf(),
                other_img.wf(),
                ow == other_img.w,
                oh == other_img.h,
                ow <= self.w,
                oh <= self.h,
                self.w == old(self).w,
                self.h == old(self).h,
                self.order() == old(self).order(),
                col_skip == (self.w - ow) / 2,
                y_center_start == (self.h - oh) / 2,
                y <= oh,
                forall|xx: int, yy: int|
                    0 <= xx < self.w && 0 <= yy < self.h ==> #[trigger] self.color_at_2d(xx, yy)
                        == if yy < y_center_start + y {
                        layered(old(self), other_img, xx, yy)
                    } else {
                        old(self).color_at_2d(xx, yy)
                    },
            decreases oh - y,
        {
            let mut x: usize = 0;
            while x < ow
                invariant
                    self.wf(),
                    other_img.wf(),
                    ow == other_img.w,
                    oh == other_img.h,
                    ow <= self.w,
                    oh <= self.h,
                    self.w == old(self).w,
                    self.h == old(self).h,
                    self.order() == old(self).order(),
                    col_skip == (self.w - ow) / 2,
                    y_center_start == (self.h - oh) / 2,
                    y < oh,
                    x <= ow,
                    forall|xx: int, yy: int|
                        0 <= xx < self.w && 0 <= yy < self.h ==> #[trigger] self.color_at_2d(
                            xx,
                            yy,
                        ) == if yy < y_center_start + y || (yy == y_center_start + y && xx
                            < col_skip + x) {
                            layered(old(self), other_img, xx, yy)
                        } else {
                            old(self).color_at_2d(xx, yy)
                        },
                decreases ow - x,
            {
                proof {
                    lemma_index_inside(x as int, y as int, ow as int, oh as int);
                    lemma_index_inside(
                        (col_skip + x) as int,
                        (y_center_start + y) as int,
                        self.w as int,
                        self.h as int,
                    );
                }
                let other_color = other_img.get_pixel2d(Coord::new(x, y));
                let ghost before = *self;
                self.set2d(Coord::new(col_skip + x, y_center_start + y), other_color);
                proof {
                    assert forall|xx: int, yy: int|
                        0 <= xx < self.w && 0 <= yy < self.h implies #[trigger] self.color_at_2d(
                        xx,
                        yy,
                    ) == if yy < y_center_start + y || (yy == y_center_start + y && xx < col_skip
                        + x + 1) {
                        layered(old(self), other_img, xx, yy)
                    } else {
                        old(self).color_at_2d(xx, yy)
                    } by {
                        lemma_index_inside(xx, yy, self.w as int, self.h as int);
                        if xx == col_skip + x && yy == y_center_start + y {
                        } else {
                            lemma_index_differs(
                                xx,
                                yy,
                                (col_skip + x) as int,
                                (y_center_start + y) as int,
                                self.w as int,
                            );
                            assert(self.color_at_2d(xx, yy) == before.color_at_2d(xx, yy));
                        }
                    }
                }
                x += 1;
            }
            y += 1;
        }
    }

    /// Blends `other_img` into `self`, pixel by pixel: over it or under it,
    /// as `blend_type` says.
    pub fn blend(&mut self, blend_type: BlendType, other_img: &Image)
        requires
            old(self).wf(),
            other_img.wf(),
            old(self).w == other_img.w,
            old(self).h == other_img.h,
        ensures
            final(self).wf(),
            final(self).w == old(self).w,
            final(self).h == old(self).h,
            final(self).order() == old(self).order(),
            forall|i: int|
                0 <= i < old(self).w * old(self).h ==> #[trigger] final(self).color_at(i)
                    == blend_spec(blend_type, old(self).color_at(i), other_img.color_at(i)),
    {
        let n: usize = self.buf.len() / 4;
        let mut i: usize = 0;
        while i < n
            invariant
                self.wf(),
                other_img.wf(),
                self.w == old(self).w,
                self.h == old(self).h,
                self.w == other_img.w,
                self.h == other_img.h,
                self.order() == old(self).order(),
                n == self.w * self.h,
                i <= n,
                forall|k: int|
                    0 <= k < n ==> #[trigger] self.color_at(k) == if k < i {
                        blend_spec(blend_type, old(self).color_at(k), other_img.color_at(k))
                    } else {
                        old(self).color_at(k)
                    },
            decreases n - i,
        {
            let fg_px = self.get_pixel(i);
            let bg_px = other_img.get_pixel(i);
            let out_px = match blend_type {
                BlendType::Over => over(fg_px, bg_px),
                BlendType::Under => under(fg_px, bg_px),
            };
            proof {
                crate::image::blend::lemma_blend_channel_bounds(fg_px.a, fg_px.r, bg_px.r);
                crate::image::blend::lemma_blend_channel_bounds(fg_px.a, fg_px.g, bg_px.g);
                crate::image::blend::lemma_blend_channel_bounds(fg_px.a, fg_px.b, bg_px.b);
                crate::image::blend::lemma_blend_channel_bounds(bg_px.a, bg_px.r, fg_px.r);
                crate::image::blend::lemma_blend_channel_bounds(bg_px.a, bg_px.g, fg_px.g);
                crate::image::blend::lemma_blend_channel_bounds(bg_px.a, bg_px.b, fg_px.b);
            }
            let ghost before = *self;
            self.set(i, out_px);
            proof {
                assert forall|k: int| 0 <= k < n implies #[trigger] self.color_at(k) == if k < i
                    + 1 {
                    blend_spec(blend_type, old(self).color_at(k), other_img.color_at(k))
                } else {
                    old(self).color_at(k)
                } by {
                    if k != i {
                        assert(self.color_at(k) == before.color_at(k));
                    }
                }
            }
            i += 1;
        }
    }
}

/// The colour that the pixel in column `x` of row `y` of `base` has once
/// `top` is put over the middle of `base`.
pub open spec fn layered(base: &Image, top: &Image, x: int, y: int) -> Color<u8> {
    let col_skip = (base.w - top.w) / 2;
    let row_skip = (base.h - top.h) / 2;
    if col_skip <= x < col_skip + top.w && row_skip <= y < row_skip + top.h {
        top.color_at_2d(x - col_skip, y - row_skip)
    } else {
        base.color_at_2d(x, y)
    }
}

/// A position inside an image of `w` by `h` has an index below `w * h`.
pub proof fn lemma_index_inside(x: int, y: int, w: int, h: int)
    requires
        0 <= x < w,
        0 <= y < h,
    ensures
        0 <= x + y * w < w * h,
{
    assert(0 <= y * w && y * w + w <= h * w && h * w == w * h) by (nonlinear_arith)
        requires
            0 <= y < h,
            0 <= w,
    ;
}

/// Two positions inside one row width that differ have indexes that differ.
pub proof fn lemma_index_differs(x1: int, y1: int, x2: int, y2: int, w: int)
    requires
        0 <= x1 < w,
        0 <= x2 < w,
        0 <= y1,
        0 <= y2,
        x1 != x2 || y1 != y2,
    ensures
        x1 + y1 * w != x2 + y2 * w,
{
    if y1 != y2 {
        assert(x1 + y1 * w != x2 + y2 * w) by (nonlinear_arith)
            requires
                0 <= x1 < w,
                0 <= x2 < w,
                y1 != y2,
        ;
    }
}

} // verus!
