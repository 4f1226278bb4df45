//! Cropping and colour detection on images.

use crate::coord::Coord;
use crate::image::get_2d_idx;
use crate::image::subpx_at;
use crate::image::Color;
use crate::image::Image;
use crate::image::Subpx;
use crate::image::N_SUBPX;
use vstd::prelude::*;

verus! {

/// Fewer matching pixels than this, or as many, count as noise.
pub const MIN_PIXELS: usize = 50;

/// The weighted squared distance of two colours: red and blue weigh by how
/// red the pair is on average, green weighs four times. Alpha plays no part.
/// It is the square of the distance that similarity is measured by, before
/// that distance is scaled to the unit interval by dividing it by 765.
pub open spec fn color_dist_sq(p1: Color<u8>, p2: Color<u8>) -> int {
    let rmean = (p1.r + p2.r) / 2;
    let r = p1.r - p2.r;
    let g = p1.g - p2.g;
    let b = p1.b - p2.b;
    ((512 + rmean) * (r * r)) / 256 + 4 * (g * g) + ((767 - rmean) * (b * b)) / 256
}

/// Whether `thresh`, in thousandths, lies strictly between nought and one.
pub open spec fn valid_thresh(thresh: u32) -> bool {
    0 < thresh < 1000
}

/// Whether `px` is more similar to `target` than `thresh` thousandths. With
/// `d` the distance of the two colours, the similarity is `1 - d / 765`; it
/// exceeds `thresh / 1000` exactly when `1000 * d < 765 * (1000 - thresh)`,
/// and squaring both sides leaves integers only.
pub open spec fn is_similar(px: Color<u8>, target: Color<u8>, thresh: u32) -> bool {
    1_000_000 * color_dist_sq(px, target) < 585_225 * ((1000 - thresh) * (1000 - thresh))
}

/// The weighted squared distance is never negative and stays well inside
/// thirty-two bits.
pub proof fn lemma_color_dist_sq_bounds(p1: Color<u8>, p2: Color<u8>)
    ensures
        0 <= color_dist_sq(p1, p2) <= 650_000,
        p1.r == p2.r && p1.g == p2.g && p1.b == p2.b ==> color_dist_sq(p1, p2) == 0,
{
    let rmean = (p1.r + p2.r) / 2;
    let r = p1.r - p2.r;
    let g = p1.g - p2.g;
    let b = p1.b - p2.b;
    assert(0 <= r * r <= 65025) by (nonlinear_arith)
        requires
            -255 <= r <= 255,
    ;
    assert(0 <= g * g <= 65025) by (nonlinear_arith)
        requires
            -255 <= g <= 255,
    ;
    assert(0 <= b * b <= 65025) by (nonlinear_arith)
        requires
            -255 <= b <= 255,
    ;
    assert(0 <= (512 + rmean) * (r * r) <= 767 * 65025) by (nonlinear_arith)
        requires
            0 <= rmean <= 255,
            0 <= r * r <= 65025,
    ;
    assert(0 <= (767 - rmean) * (b * b) <= 767 * 65025) by (nonlinear_arith)
        requires
            0 <= rmean <= 255,
            0 <= b * b <= 65025,
    ;
    if p1.r == p2.r && p1.g == p2.g && p1.b == p2.b {
        assert(r * r == 0 && g * g == 0 && b * b == 0) by (nonlinear_arith)
            requires
                r == 0,
                g == 0,
                b == 0,
        ;
        assert((512 + rmean) * (r * r) == 0) by (nonlinear_arith)
            requires
                r * r == 0,
        ;
        assert((767 - rmean) * (b * b) == 0) by (nonlinear_arith)
            requires
                b * b == 0,
        ;
    }
}

/// A colour is similar to itself at every valid threshold.
pub proof fn lemma_same_color_is_similar(px: Color<u8>, target: Color<u8>, thresh: u32)
    requires
        valid_thresh(thresh),
        px.r == target.r,
        px.g == target.g,
        px.b == target.b,
    ensures
        is_similar(px, target, thresh),
{
    lemma_color_dist_sq_bounds(px, target);
    let t = 1000 - thresh;
    assert(t * t > 0) by (nonlinear_arith)
        requires
            t > 0,
    ;
}

fn abs_diff(a: u8, b: u8) -> (d: u32)
    ensures
        d == if a >= b {
            a - b
        } else {
            b - a
        },
        d <= 255,
        d * d == (a - b) * (a - b),
{
    let d: u32 = if a >= b {
        (a - b) as u32
    } else {
        (b - a) as u32
    };
    assert(d * d == (a - b) * (a - b)) by (nonlinear_arith)
        requires
            d == a - b || d == b - a,
    ;
    d
}

/// The weighted squared distance between two colours.
pub fn color_distance_sq(p1: Color<u8>, p2: Color<u8>) -> (d: u32)
    ensures
        d == color_dist_sq(p1, p2),
{
    proof {
        lemma_color_dist_sq_bounds(p1, p2);
    }
    let rmean: u32 = (p1.r as u32 + p2.r as u32) / 2;
    let r = abs_diff(p1.r, p2.r);
    let g = abs_diff(p1.g, p2.g);
    let b = abs_diff(p1.b, p2.b);
    assert(r * r <= 65025 && g * g <= 65025 && b * b <= 65025) by (nonlinear_arith)
        requires
            r <= 255,
            g <= 255,
            b <= 255,
    ;
    let rr: u32 = r * r;
    let gg: u32 = g * g;
    let bb: u32 = b * b;
    assert((512 + rmean) * rr <= 767 * 65025 && (767 - rmean) * bb <= 767 * 65025)
        by (nonlinear_arith)
        requires
            rmean <= 255,
            rr <= 65025,
            bb <= 65025,
    ;
    ((512 + rmean) * rr) / 256 + 4 * gg + ((767 - rmean) * bb) / 256
}

/// Whether `px` is more similar to `target` than `thresh` thousandths.
pub fn similar(px: Color<u8>, target: Color<u8>, thresh: u32) -> (b: bool)
    requires
        valid_thresh(thresh),
    ensures
        b == is_similar(px, target, thresh),
{
    proof {
        lemma_color_dist_sq_bounds(px, target);
    }
    let d: u64 = color_distance_sq(px, target) as u64;
    let t: u64 = (1000 - thresh) as u64;
    assert(t * t <= 1_000_000) by (nonlinear_arith)
        requires
            t <= 1000,
    ;
    1_000_000 * d < 585_225 * (t * t)
}

/// Whether `thresh`, in thousandths, lies strictly between nought and one.
pub fn threshold_is_valid(thresh: u32) -> (b: bool)
    ensures
        b == valid_thresh(thresh),
{
    0 < thresh && thresh < 1000
}

/// The position of pixel `idx` in rows `w` pixels wide.
pub open spec fn pos_of(w: usize, idx: int) -> Coord<usize> {
    Coord { x: (idx % (w as int)) as usize, y: (idx / (w as int)) as usize }
}

impl Image {
    /// Whether `crop_w` columns on each side and `crop_h` rows at the top and
    /// at the bottom leave something of the image.
    pub open spec fn can_crop(&self, crop_w: usize, crop_h: usize) -> bool {
        crop_w * 2 < self.w && crop_h * 2 < self.h
    }

    /// The image without `crop_w` columns on each side and `crop_h` rows at
    /// the top and at the bottom: pixel `(x, y)` of the result is pixel
    /// `(x + crop_w, y + crop_h)` of `self`.
    pub fn crop_to_center(&self, crop_w: usize, crop_h: usize) -> (out: Image)
        requires
            self.wf(),
            self.can_crop(crop_w, crop_h),
        ensures
            out.wf(),
            out.w == self.w - 2 * crop_w,
            out.h == self.h - 2 * crop_h,
            out.order() == self.order(),
            forall|x: int, y: int, c: int|
                0 <= x < out.w && 0 <= y < out.h && 0 <= c < 4 ==> #[trigger] subpx_at(
                    out@,
                    out.w as int,
                    x,
                    y,
                    c,
                ) == subpx_at(self@, self.w as int, x + crop_w, y + crop_h, c),
    {
        let out_w: usize = self.w - 2 * crop_w;
        let out_h: usize = self.h - 2 * crop_h;
        proof {
            assert(self.w * 4 <= self.w * self.h * 4) by (nonlinear_arith)
                requires
                    self.h >= 1,
            ;
            assert(out_w * out_h * 4 <= self.w * self.h * 4) by (nonlinear_arith)
                requires
                    out_w <= self.w,
                    out_h <= self.h,
            ;
        }
        let row_len: usize = self.w * N_SUBPX;
        let out_row_len: usize = out_w * N_SUBPX;
        let mut out_buf: Vec<Subpx> = Vec::new();
        let mut y: usize = 0;
        while y < out_h
            invariant
                self.wf(),
                self.can_crop(crop_w, crop_h),
                out_w == self.w - 2 * crop_w,
                out_h == self.h - 2 * crop_h,
                row_len == self.w * 4,
                out_row_len == out_w * 4,
                y <= out_h,
                out_buf@.len() == y * out_row_len,
                forall|x: int, yy: int, c: int|
                    0 <= x < out_w && 0 <= yy < y && 0 <= c < 4 ==> #[trigger] subpx_at(
                        out_buf@,
                        out_w as int,
                        x,
                        yy,
                        c,
                    ) == subpx_at(self@, self.w as int, x + crop_w, yy + crop_h, c),
            decreases out_h - y,
        {
            let ghost before = out_buf@;
            proof {
                assert((y + crop_h + 1) * row_len <= self.h * row_len) by (nonlinear_arith)
                    requires
                        y + crop_h + 1 <= self.h,
                ;
                assert(self.h * row_len == self.w * self.h * 4) by (nonlinear_arith)
                    requires
                        row_len == self.w * 4,
                ;
                assert((y + crop_h + 1) * row_len == (y + crop_h) * row_len + row_len)
                    by (nonlinear_arith);
            }
            let start: usize = (y + crop_h) * row_len + crop_w * N_SUBPX;
            let row = vstd::slice::slice_subrange(self.buf.as_slice(), start, start + out_row_len);
            out_buf.extend_from_slice(row);
            proof {
                assert((y + 1) * out_row_len == y * out_row_len + out_row_len)
                    by (nonlinear_arith);
                assert forall|x: int, yy: int, c: int|
                    0 <= x < out_w && 0 <= yy < y + 1 && 0 <= c < 4 implies #[trigger] subpx_at(
                    out_buf@,
                    out_w as int,
                    x,
                    yy,
                    c,
                ) == subpx_at(self@, self.w as int, x + crop_w, yy + crop_h, c) by {
                    let i = (yy * out_w + x) * 4 + c;
                    if yy < y {
                        assert((yy + 1) * out_w <= y * out_w) by (nonlinear_arith)
                            requires
                                yy + 1 <= y,
                                out_w >= 0,
                        ;
                        assert((yy + 1) * out_w == yy * out_w + out_w) by (nonlinear_arith);
                        assert(y * out_row_len == (y * out_w) * 4) by (nonlinear_arith)
                            requires
                                out_row_len == out_w * 4,
                        ;
                        assert(0 <= yy * out_w) by (nonlinear_arith)
                            requires
                                0 <= yy,
                                0 <= out_w,
                        ;
                        assert(0 <= i < before.len());
                        assert(out_buf@[i] == before[i]);
                        assert(subpx_at(before, out_w as int, x, yy, c) == before[i]);
                    } else {
                        assert(y * out_row_len == (y * out_w) * 4) by (nonlinear_arith)
                            requires
                                out_row_len == out_w * 4,
                        ;
                        let k = x * 4 + c;
                        assert(i == before.len() + k);
                        assert(out_buf@[i] == row@[k]);
                        assert(row@[k] == self@[start + k]);
                        assert(((yy + crop_h) * self.w + (x + crop_w)) * 4 + c == start + k)
                            by (nonlinear_arith)
                            requires
                                start == (y + crop_h) * row_len + crop_w * 4,
                                row_len == self.w * 4,
                                k == x * 4 + c,
                                yy == y,
                        ;
                    }
                }
            }
            y += 1;
        }
        proof {
            assert(out_h * out_row_len == out_w * out_h * 4) by (nonlinear_arith)
                requires
                    out_row_len == out_w * 4,
            ;
        }
        Image::new(out_buf, self.pixel_order, out_w, out_h)
    }

    /// The positions of the first `n` pixels, row by row, that are similar to
    /// `target`.
    pub open spec fn matching_upto(&self, target: Color<u8>, thresh: u32, n: nat) -> Seq<
        Coord<usize>,
    >
        decreases n,
    {
        if n == 0 {
            Seq::empty()
        } else {
            let before = self.matching_upto(target, thresh, (n - 1) as nat);
            if is_similar(self.color_at(n - 1), target, thresh) {
                before.push(pos_of(self.w, n - 1))
            } else {
                before
            }
        }
    }

    /// The positions of all pixels that are similar to `target`, row by row.
    pub open spec fn matching(&self, target: Color<u8>, thresh: u32) -> Seq<Coord<usize>> {
        self.matching_upto(target, thresh, (self.w * self.h) as nat)
    }

    /// The positions of the pixels whose similarity to `target` exceeds
    /// `thresh` thousandths, row by row; nothing where there are no more of
    /// them than noise would give.
    pub fn detect_color(&self, target: Color<u8>, thresh: u32) -> (found: Option<
        Vec<Coord<usize>>,
    >)
        requires
            self.wf(),
            valid_thresh(thresh),
        ensures
            match found {
                Some(coords) => coords@ == self.matching(target, thresh) && coords@.len()
                    > MIN_PIXELS,
                None => self.matching(target, thresh).len() <= MIN_PIXELS,
            },
    {
        let n: usize = self.buf.len() / N_SUBPX;
        let mut coords: Vec<Coord<usize>> = Vec::new();
        let mut idx: usize = 0;
        while idx < n
            invariant
                self.wf(),
                valid_thresh(thresh),
                n == self.w * self.h,
                idx <= n,
                coords@ == self.matching_upto(target, thresh, idx as nat),
            decreases n - idx,
        {
            if similar(self.get_pixel(idx), target, thresh) {
                assert(self.w > 0) by (nonlinear_arith)
                    requires
                        idx < self.w * self.h,
                ;
                coords.push(get_2d_idx(self.w, idx));
            }
            idx += 1;
        }
        if coords.len() > MIN_PIXELS {
            Some(coords)
        } else {
            None
        }
    }
}

/// What `matching` holds: each position of the image whose pixel is similar
/// to the target, once, and nothing else.
pub proof fn lemma_matching(img: Image, target: Color<u8>, thresh: u32, n: nat)
    requires
        img.wf(),
        n <= img.w * img.h,
    ensures
        img.matching_upto(target, thresh, n).no_duplicates(),
        img.matching_upto(target, thresh, n).len() <= n,
        forall|c: Coord<usize>|
            img.matching_upto(target, thresh, n).contains(c) <==> (c.x < img.w && c.x + c.y * img.w
                < n && is_similar(img.color_at(c.x + c.y * img.w), target, thresh)),
    decreases n,
{
    let s = img.matching_upto(target, thresh, n);
    if n == 0 {
    } else {
        let before = img.matching_upto(target, thresh, (n - 1) as nat);
        lemma_matching(img, target, thresh, (n - 1) as nat);
        let w = img.w as int;
        assert(w > 0) by (nonlinear_arith)
            requires
                n <= img.w * img.h,
                n > 0,
                w == img.w,
        ;
        let p = pos_of(img.w, n - 1);
        vstd::arithmetic::div_mod::lemma_fundamental_div_mod(n - 1, w);
        vstd::arithmetic::div_mod::lemma_mod_bound(n - 1, w);
        vstd::arithmetic::div_mod::lemma_div_pos_is_pos(n - 1, w);
        assert((n - 1) / w <= n - 1) by {
            vstd::arithmetic::div_mod::lemma_div_is_ordered_by_denominator(n - 1, 1, w);
        }
        assert(p.x + p.y * img.w == n - 1) by (nonlinear_arith)
            requires
                n - 1 == w * ((n - 1) / w) + (n - 1) % w,
                p.x == (n - 1) % w,
                p.y == (n - 1) / w,
                w == img.w,
        ;
        if is_similar(img.color_at(n - 1), target, thresh) {
            assert(s == before.push(p));
            assert(!before.contains(p));
            assert forall|c: Coord<usize>| s.contains(c) <==> (c.x < img.w && c.x + c.y * img.w < n
                && is_similar(img.color_at(c.x + c.y * img.w), target, thresh)) by {
                if s.contains(c) {
                    let i = choose|i: int| 0 <= i < s.len() && s[i] == c;
                    if i < before.len() {
                        assert(before[i] == c);
                        assert(before.contains(c));
                    } else {
                        assert(c == p);
                    }
                }
                if c.x < img.w && c.x + c.y * img.w < n && is_similar(
                    img.color_at(c.x + c.y * img.w),
                    target,
                    thresh,
                ) {
                    if c.x + c.y * img.w < n - 1 {
                        assert(before.contains(c));
                        let i = choose|i: int| 0 <= i < before.len() && before[i] == c;
                        assert(s[i] == c);
                    } else {
                        lemma_pos_unique(img.w, c, p);
                        assert(s[before.len() as int] == p);
                    }
                }
            }
            assert(s.no_duplicates()) by {
                assert forall|i: int, j: int|
                    0 <= i < s.len() && 0 <= j < s.len() && i != j implies s[i] != s[j] by {
                    if i < before.len() && j < before.len() {
                    } else if i < before.len() {
                        assert(before.contains(before[i]));
                    } else {
                        assert(before.contains(before[j]));
                    }
                }
            }
        } else {
            assert(s == before);
            assert forall|c: Coord<usize>| s.contains(c) <==> (c.x < img.w && c.x + c.y * img.w < n
                && is_similar(img.color_at(c.x + c.y * img.w), target, thresh)) by {
                if c.x < img.w && c.x + c.y * img.w == n - 1 {
                    lemma_pos_unique(img.w, c, p);
                }
            }
        }
    }
}

/// Two positions inside the same row width with the same index are one.
pub proof fn lemma_pos_unique(w: usize, a: Coord<usize>, b: Coord<usize>)
    requires
        a.x < w,
        b.x < w,
        a.x + a.y * w == b.x + b.y * w,
    ensures
        a == b,
{
    assert(a.y == b.y) by (nonlinear_arith)
        requires
            a.x < w,
            b.x < w,
            a.x + a.y * w == b.x + b.y * w,
    ;
    assert(a.x == b.x);
}

} // verus!
