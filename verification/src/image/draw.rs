//! Drawing on images: points, lines, boxes, crosshairs and grids.

use crate::coord::Coord;
use crate::image::scale::lemma_index_differs;
use crate::image::scale::lemma_index_inside;
use crate::image::with_color;
use crate::image::Color;
use crate::image::Image;
use crate::image::PixelOrder;
use crate::line::bresenham;
use crate::line::bresenham_line;
use vstd::prelude::*;

verus! {

/// Whether the point lies on an image of `w` by `h`, or at least on its
/// buffer: neither coordinate is negative, and the index of the point is
/// one of a pixel.
pub open spec fn on_image(p: (i32, i32), w: usize, h: usize) -> bool {
    0 <= p.0 && 0 <= p.1 && p.0 + p.1 * w < w * h
}

/// Whether every point lies on an image of `w` by `h`.
pub open spec fn all_on_image(points: Seq<(i32, i32)>, w: usize, h: usize) -> bool {
    forall|i: int| 0 <= i < points.len() ==> on_image(#[trigger] points[i], w, h)
}

/// The buffer `buf` of rows `w` pixels wide with the pixel at each of
/// `points` set to `fill`.
pub open spec fn plotted(
    buf: Seq<u8>,
    order: PixelOrder,
    w: usize,
    points: Seq<(i32, i32)>,
    fill: Color<u8>,
) -> Seq<u8>
    decreases points.len(),
{
    if points.len() == 0 {
        buf
    } else {
        with_color(
            plotted(buf, order, w, points.drop_last(), fill),
            order,
            points.last().0 + points.last().1 * w,
            fill,
        )
    }
}

/// The corners of the box with its top left corner at `tl`, `w` wide and `h`
/// high: top left, top right, bottom right, bottom left.
pub open spec fn box_corners(tl: Coord<usize>, w: usize, h: usize) -> Seq<(i32, i32)> {
    seq![
        (tl.x as i32, tl.y as i32),
        ((tl.x + w) as i32, tl.y as i32),
        ((tl.x + w) as i32, (tl.y + h) as i32),
        (tl.x as i32, (tl.y + h) as i32),
    ]
}

/// The points of the four sides of a box, side after side from the top one
/// round to the left one.
pub open spec fn box_outline(tl: Coord<usize>, w: usize, h: usize) -> Seq<(i32, i32)> {
    let c = box_corners(tl, w, h);
    bresenham_line(c[0], c[1]) + bresenham_line(c[1], c[2]) + bresenham_line(c[2], c[3])
        + bresenham_line(c[3], c[0])
}

/// Plotting two runs of points one after the other is plotting the two in a
/// row.
pub proof fn lemma_plotted_add(
    buf: Seq<u8>,
    order: PixelOrder,
    w: usize,
    a: Seq<(i32, i32)>,
    b: Seq<(i32, i32)>,
    fill: Color<u8>,
)
    ensures
        plotted(plotted(buf, order, w, a, fill), order, w, b, fill) == plotted(
            buf,
            order,
            w,
            a + b,
            fill,
        ),
    decreases b.len(),
{
    if b.len() == 0 {
        assert(a + b =~= a);
    } else {
        lemma_plotted_add(buf, order, w, a, b.drop_last(), fill);
        assert((a + b).drop_last() =~= a + b.drop_last());
        assert((a + b).last() == b.last());
    }
}

impl Image {
    /// Sets the pixel at each of `points` to `fill`.
    pub fn plot(&mut self, points: &[(i32, i32)], fill: Color<u8>)
        requires
            old(self).wf(),
            all_on_image(points@, old(self).w, old(self).h),
        ensures
            final(self).wf(),
            final(self).w == old(self).w,
            final(self).h == old(self).h,
            final(self).order() == old(self).order(),
            final(self)@ == plotted(old(self)@, old(self).order(), old(self).w, points@, fill),
    {
        let mut i: usize = 0;
        while i < points.len()
            invariant
                self.wf(),
                self.w == old(self).w,
                self.h == old(self).h,
                self.order() == old(self).order(),
                all_on_image(points@, self.w, self.h),
                i <= points@.len(),
                self@ == plotted(
                    old(self)@,
                    old(self).order(),
                    old(self).w,
                    points@.take(i as int),
                    fill,
                ),
            decreases points@.len() - i,
        {
            let (x, y) = points[i];
            proof {
                assert(on_image(points@[i as int], self.w, self.h));
                assert(points@.take(i + 1).drop_last() =~= points@.take(i as int));
            }
            self.set2d(Coord::new(x as usize, y as usize), fill);
            i += 1;
        }
        proof {
            assert(points@.take(points@.len() as int) =~= points@);
        }
    }

    /// Whether the line from `start` to `end` can be drawn: all of its points
    /// lie on the image.
    pub fn line_fits(&self, start: Coord<usize>, end: Coord<usize>) -> (fits: bool)
        requires
            self.wf(),
            start.x < i32::MAX,
            start.y < i32::MAX,
            end.x < i32::MAX,
            end.y < i32::MAX,
        ensures
            fits == all_on_image(
                bresenham_line((start.x as i32, start.y as i32), (end.x as i32, end.y as i32)),
                self.w,
                self.h,
            ),
    {
        let points = bresenham((start.x as i32, start.y as i32), (end.x as i32, end.y as i32));
        points_fit(points.as_slice(), self.w, self.h)
    }

    /// Draws the line from `start` to `end` in `fill`.
    pub fn draw_line(&mut self, start: Coord<usize>, end: Coord<usize>, fill: Color<u8>)
        requires
            old(self).wf(),
            start.x < i32::MAX,
            start.y < i32::MAX,
            end.x < i32::MAX,
            end.y < i32::MAX,
            all_on_image(
                bresenham_line((start.x as i32, start.y as i32), (end.x as i32, end.y as i32)),
                old(self).w,
                old(self).h,
            ),
        ensures
            final(self).wf(),
            final(self).w == old(self).w,
            final(self).h == old(self).h,
            final(self).order() == old(self).order(),
            final(self)@ == plotted(
                old(self)@,
                old(self).order(),
                old(self).w,
                bresenham_line((start.x as i32, start.y as i32), (end.x as i32, end.y as i32)),
                fill,
            ),
    {
        let points = bresenham((start.x as i32, start.y as i32), (end.x as i32, end.y as i32));
        self.plot(points.as_slice(), fill);
    }

    /// Draws the line from `start` to `end` in `fill` if all of it lies on
    /// the image, and says whether it did; an image that the line would
    /// leave stays as it is.
    pub fn try_draw_line(&mut self, start: Coord<usize>, end: Coord<usize>, fill: Color<u8>) -> (drawn:
        bool)
        requires
            old(self).wf(),
            start.x < i32::MAX,
            start.y < i32::MAX,
            end.x < i32::MAX,
            end.y < i32::MAX,
        ensures
            final(self).wf(),
            final(self).w == old(self).w,
            final(self).h == old(self).h,
            final(self).order() == old(self).order(),
            drawn == all_on_image(
                bresenham_line((start.x as i32, start.y as i32), (end.x as i32, end.y as i32)),
                old(self).w,
                old(self).h,
            ),
            final(self)@ == if drawn {
                plotted(
                    old(self)@,
                    old(self).order(),
                    old(self).w,
                    bresenham_line((start.x as i32, start.y as i32), (end.x as i32, end.y as i32)),
                    fill,
                )
            } else {
                old(self)@
            },
    {
        if self.line_fits(start, end) {
            self.draw_line(start, end, fill);
            true
        } else {
            false
        }
    }

    /// Whether the corners of a box stay below the greatest integer that its
    /// lines take.
    pub open spec fn box_in_range(tl: Coord<usize>, w: usize, h: usize) -> bool {
        tl.x + w < i32::MAX && tl.y + h < i32::MAX
    }

    /// Draws the four sides of the box with its top left corner at `tl`, `w`
    /// wide and `h` high, in `fill`.
    pub fn draw_bbox(&mut self, tl: Coord<usize>, w: usize, h: usize, fill: Color<u8>)
        requires
            old(self).wf(),
            Self::box_in_range(tl, w, h),
            all_on_image(box_outline(tl, w, h), old(self).w, old(self).h),
        ensures
            final(self).wf(),
            final(self).w == old(self).w,
            final(self).h == old(self).h,
            final(self).order() == old(self).order(),
            final(self)@ == plotted(
                old(self)@,
                old(self).order(),
                old(self).w,
                box_outline(tl, w, h),
                fill,
            ),
    {
        let tr = Coord::new(tl.x + w, tl.y);
        let bl = Coord::new(tl.x, tl.y + h);
        let br = Coord::new(bl.x + w, bl.y);
        proof {
            let c = box_corners(tl, w, h);
            let (top, right, bottom, left) = (
                bresenham_line(c[0], c[1]),
                bresenham_line(c[1], c[2]),
                bresenham_line(c[2], c[3]),
                bresenham_line(c[3], c[0]),
            );
            let all = box_outline(tl, w, h);
            assert(all == top + right + bottom + left);
            assert forall|i: int| 0 <= i < top.len() implies on_image(
                #[trigger] top[i],
                self.w,
                self.h,
            ) by {
                assert(all[i] == top[i]);
            }
            assert forall|i: int| 0 <= i < right.len() implies on_image(
                #[trigger] right[i],
                self.w,
                self.h,
            ) by {
                assert(all[top.len() + i] == right[i]);
            }
            assert forall|i: int| 0 <= i < bottom.len() implies on_image(
                #[trigger] bottom[i],
                self.w,
                self.h,
            ) by {
                assert(all[top.len() + right.len() + i] == bottom[i]);
            }
            assert forall|i: int| 0 <= i < left.len() implies on_image(
                #[trigger] left[i],
                self.w,
                self.h,
            ) by {
                assert(all[top.len() + right.len() + bottom.len() + i] == left[i]);
            }
            lemma_plotted_add(old(self)@, self.order(), self.w, top, right, fill);
            lemma_plotted_add(old(self)@, self.order(), self.w, top + right, bottom, fill);
            lemma_plotted_add(old(self)@, self.order(), self.w, top + right + bottom, left, fill);
        }
        self.draw_line(tl, tr, fill);
        self.draw_line(tr, br, fill);
        self.draw_line(br, bl, fill);
        self.draw_line(bl, tl, fill);
    }

    /// Draws the box if all of its sides lie on the image, and says whether
    /// it did; an image that a side would leave stays as it is.
    pub fn try_draw_bbox(&mut self, tl: Coord<usize>, w: usize, h: usize, fill: Color<u8>) -> (drawn:
        bool)
        requires
            old(self).wf(),
            Self::box_in_range(tl, w, h),
        ensures
            final(self).wf(),
            final(self).w == old(self).w,
            final(self).h == old(self).h,
            final(self).order() == old(self).order(),
            drawn == all_on_image(box_outline(tl, w, h), old(self).w, old(self).h),
            final(self)@ == if drawn {
                plotted(old(self)@, old(self).order(), old(self).w, box_outline(tl, w, h), fill)
            } else {
                old(self)@
            },
    {
        let tr = Coord::new(tl.x + w, tl.y);
        let bl = Coord::new(tl.x, tl.y + h);
        let br = Coord::new(bl.x + w, bl.y);
        let fits = self.line_fits(tl, tr) && self.line_fits(tr, br) && self.line_fits(br, bl)
            && self.line_fits(bl, tl);
        proof {
            let c = box_corners(tl, w, h);
            let (top, right, bottom, left) = (
                bresenham_line(c[0], c[1]),
                bresenham_line(c[1], c[2]),
                bresenham_line(c[2], c[3]),
                bresenham_line(c[3], c[0]),
            );
            let all = box_outline(tl, w, h);
            assert(all == top + right + bottom + left);
            if fits {
                assert forall|i: int| 0 <= i < all.len() implies on_image(
                    #[trigger] all[i],
                    self.w,
                    self.h,
                ) by {
                    if i < top.len() {
                        assert(all[i] == top[i]);
                    } else if i < top.len() + right.len() {
                        assert(all[i] == right[i - top.len()]);
                    } else if i < top.len() + right.len() + bottom.len() {
                        assert(all[i] == bottom[i - top.len() - right.len()]);
                    } else {
                        assert(all[i] == left[i - top.len() - right.len() - bottom.len()]);
                    }
                }
            } else if all_on_image(all, self.w, self.h) {
                assert forall|i: int| 0 <= i < top.len() implies on_image(
                    #[trigger] top[i],
                    self.w,
                    self.h,
                ) by {
                    assert(all[i] == top[i]);
                }
                assert forall|i: int| 0 <= i < right.len() implies on_image(
                    #[trigger] right[i],
                    self.w,
                    self.h,
                ) by {
                    assert(all[top.len() + i] == right[i]);
                }
                assert forall|i: int| 0 <= i < bottom.len() implies on_image(
                    #[trigger] bottom[i],
                    self.w,
                    self.h,
                ) by {
                    assert(all[top.len() + right.len() + i] == bottom[i]);
                }
                assert forall|i: int| 0 <= i < left.len() implies on_image(
                    #[trigger] left[i],
                    self.w,
                    self.h,
                ) by {
                    assert(all[top.len() + right.len() + bottom.len() + i] == left[i]);
                }
            }
        }
        if fits {
            self.draw_bbox(tl, w, h, fill);
            true
        } else {
            false
        }
    }

    /// Whether the pixel in column `x` of row `y` lies on the crosshair at
    /// `pos` with arms `len` long.
    pub open spec fn on_crosshair(pos: Coord<usize>, len: usize, x: int, y: int) -> bool {
        (y == pos.y && pos.x - len <= x <= pos.x + len) || (x == pos.x && pos.y - len <= y
            <= pos.y + len)
    }

    /// Draws a crosshair at `pos` in `fill`: a row and a column through
    /// `pos`, `len` pixels to each side or as far as the image goes.
    pub fn draw_crosshair(&mut self, pos: Coord<usize>, len: usize, fill: Color<u8>)
        requires
            old(self).wf(),
            pos.x < old(self).w,
            pos.y < old(self).h,
        ensures
            final(self).wf(),
            final(self).w == old(self).w,
            final(self).h == old(self).h,
            final(self).order() == old(self).order(),
            forall|x: int, y: int|
                0 <= x < old(self).w && 0 <= y < old(self).h ==> #[trigger] final(self).color_at_2d(x, y) == if Self::on_crosshair(pos, len, x, y) {
                    fill
                } else {
                    old(self).color_at_2d(x, y)
                },
    {
        let x_lo: usize = if pos.x >= len {
            pos.x - len
        } else {
            0
        };
        let x_hi: usize = if len < self.w - 1 - pos.x {
            pos.x + len
        } else {
            self.w - 1
        };
        let y_lo: usize = if pos.y >= len {
            pos.y - len
        } else {
            0
        };
        let y_hi: usize = if len < self.h - 1 - pos.y {
            pos.y + len
        } else {
            self.h - 1
        };
        let mut x_idx: usize = x_lo;
        while x_idx <= x_hi
            invariant
                self.wf(),
                self.w == old(self).w,
                self.h == old(self).h,
                self.order() == old(self).order(),
                pos.x < self.w,
                pos.y < self.h,
                x_lo <= x_idx <= x_hi + 1,
                x_hi < self.w,
                forall|x: int, y: int|
                    0 <= x < self.w && 0 <= y < self.h ==> #[trigger] self.color_at_2d(x, y)
                        == if y == pos.y && x_lo <= x < x_idx {
                        fill
                    } else {
                        old(self).color_at_2d(x, y)
                    },
            decreases x_hi + 1 - x_idx,
        {
            proof {
                lemma_index_inside(x_idx as int, pos.y as int, self.w as int, self.h as int);
            }
            let ghost before = *self;
            self.set2d(Coord::new(x_idx, pos.y), fill);
            proof {
                assert forall|x: int, y: int|
                    0 <= x < self.w && 0 <= y < self.h implies #[trigger] self.color_at_2d(x, y)
                    == if y == pos.y && x_lo <= x < x_idx + 1 {
                    fill
                } else {
                    old(self).color_at_2d(x, y)
                } by {
                    lemma_index_inside(x, y, self.w as int, self.h as int);
                    if x == x_idx && y == pos.y {
                    } else {
                        lemma_index_differs(x, y, x_idx as int, pos.y as int, self.w as int);
                        assert(self.color_at_2d(x, y) == before.color_at_2d(x, y));
                    }
                }
            }
            x_idx += 1;
        }
        let mut y_idx: usize = y_lo;
        while y_idx <= y_hi
            invariant
                self.wf(),
                self.w == old(self).w,
                self.h == old(self).h,
                self.order() == old(self).order(),
                pos.x < self.w,
                pos.y < self.h,
                y_lo <= y_idx <= y_hi + 1,
                y_hi < self.h,
                forall|x: int, y: int|
                    0 <= x < self.w && 0 <= y < self.h ==> #[trigger] self.color_at_2d(x, y)
                        == if (y == pos.y && x_lo <= x <= x_hi) || (x == pos.x && y_lo <= y
                        < y_idx) {
                        fill
                    } else {
                        old(self).color_at_2d(x, y)
                    },
            decreases y_hi + 1 - y_idx,
        {
            proof {
                lemma_index_inside(pos.x as int, y_idx as int, self.w as int, self.h as int);
            }
            let ghost before = *self;
            self.set2d(Coord::new(pos.x, y_idx), fill);
            proof {
                assert forall|x: int, y: int|
                    0 <= x < self.w && 0 <= y < self.h implies #[trigger] self.color_at_2d(x, y)
                    == if (y == pos.y && x_lo <= x <= x_hi) || (x == pos.x && y_lo <= y < y_idx
                    + 1) {
                    fill
                } else {
                    old(self).color_at_2d(x, y)
                } by {
                    lemma_index_inside(x, y, self.w as int, self.h as int);
                    if x == pos.x && y == y_idx {
                    } else {
                        lemma_index_differs(x, y, pos.x as int, y_idx as int, self.w as int);
                        assert(self.color_at_2d(x, y) == before.color_at_2d(x, y));
                    }
                }
            }
            y_idx += 1;
        }
    }

    /// Whether the pixel in column `x` of row `y` lies on the grid of
    /// `step`: on a line of the grid, which come after every `step` pixels
    /// both ways.
    pub open spec fn on_grid(step: u32, x: int, y: int) -> bool {
        x % (step + 1) == step as int || y % (step + 1) == step as int
    }

    /// Draws a grid in `fill`: a column after every `step` columns and a row
    /// after every `step` rows.
    pub fn draw_grid(&mut self, step: u32, fill: Color<u8>)
        requires
            old(self).wf(),
        ensures
            final(self).wf(),
            final(self).w == old(self).w,
            final(self).h == old(self).h,
            final(self).order() == old(self).order(),
            forall|x: int, y: int|
                0 <= x < old(self).w && 0 <= y < old(self).h ==> #[trigger] final(self).color_at_2d(x, y) == if Self::on_grid(step, x, y) {
                    fill
                } else {
                    old(self).color_at_2d(x, y)
                },
    {
        let img_w = self.w;
        let img_h = self.h;
        let mut row_draw: u32 = 0;
        let mut y: usize = 0;
        while y < img_h
            invariant
                self.wf(),
                self.w == old(self).w,
                self.h == old(self).h,
                img_w == self.w,
                img_h == self.h,
                self.order() == old(self).order(),
                y <= img_h,
                row_draw <= step,
                row_draw == y as int % (step + 1),
                forall|xx: int, yy: int|
                    0 <= xx < self.w && 0 <= yy < self.h ==> #[trigger] self.color_at_2d(xx, yy)
                        == if yy < y && Self::on_grid(step, xx, yy) {
                        fill
                    } else {
                        old(self).color_at_2d(xx, yy)
                    },
            decreases img_h - y,
        {
            let mut col_draw: u32 = 0;
            let mut x: usize = 0;
            while x < img_w
                invariant
                    self.wf(),
                    self.w == old(self).w,
                    self.h == old(self).h,
                    img_w == self.w,
                    img_h == self.h,
                    self.order() == old(self).order(),
                    y < img_h,
                    x <= img_w,
                    row_draw <= step,
                    row_draw == y as int % (step + 1),
                    col_draw <= step,
                    col_draw == x as int % (step + 1),
                    forall|xx: int, yy: int|
                        0 <= xx < self.w && 0 <= yy < self.h ==> #[trigger] self.color_at_2d(
                            xx,
                            yy,
                        ) == if (yy < y || (yy == y && xx < x)) && Self::on_grid(step, xx, yy) {
                            fill
                        } else {
                            old(self).color_at_2d(xx, yy)
                        },
                decreases img_w - x,
            {
                let ghost before = *self;
                proof {
                    lemma_index_inside(x as int, y as int, self.w as int, self.h as int);
                    lemma_next_residue(x as int, step as int + 1);
                }
                let mut draw = false;
                if col_draw == step {
                    draw = true;
                    col_draw = 0;
                } else {
                    col_draw += 1;
                }
                if row_draw == step {
                    draw = true;
                }
                if draw {
                    self.set2d(Coord::new(x, y), fill);
                }
                proof {
                    assert forall|xx: int, yy: int|
                        0 <= xx < self.w && 0 <= yy < self.h implies #[trigger] self.color_at_2d(
                        xx,
                        yy,
                    ) == if (yy < y || (yy == y && xx < x + 1)) && Self::on_grid(step, xx, yy) {
                        fill
                    } else {
                        old(self).color_at_2d(xx, yy)
                    } by {
                        lemma_index_inside(xx, yy, self.w as int, self.h as int);
                        if xx == x && yy == y {
                        } else {
                            lemma_index_differs(xx, yy, x as int, y as int, self.w as int);
                            assert(self.color_at_2d(xx, yy) == before.color_at_2d(xx, yy));
                        }
                    }
                }
                x += 1;
            }
            proof {
                lemma_next_residue(y as int, step as int + 1);
            }
            if row_draw == step {
                row_draw = 0;
            } else {
                row_draw += 1;
            }
            y += 1;
        }
    }
}

/// Whether every point lies on an image of `w` by `h`.
fn points_fit(points: &[(i32, i32)], w: usize, h: usize) -> (fits: bool)
    requires
        w * h * 4 <= usize::MAX,
    ensures
        fits == all_on_image(points@, w, h),
{
    let n: usize = w * h;
    let mut i: usize = 0;
    while i < points.len()
        invariant
            n == w * h,
            w * h * 4 <= usize::MAX,
            i <= points@.len(),
            forall|k: int| 0 <= k < i ==> on_image(#[trigger] points@[k], w, h),
        decreases points@.len() - i,
    {
        let (x, y) = points[i];
        let inside = x >= 0 && y >= 0 && index_below(x as usize, y as usize, w, n);
        if !inside {
            assert(!on_image(points@[i as int], w, h));
            return false;
        }
        i += 1;
    }
    true
}

/// Whether `x + y * w` is less than `n`.
fn index_below(x: usize, y: usize, w: usize, n: usize) -> (below: bool)
    ensures
        below == (x + y * w < n),
{
    if w == 0 {
        assert(y * w == 0) by (nonlinear_arith)
            requires
                w == 0,
        ;
        return x < n;
    }
    if y > n / w {
        assert(y * w >= n) by (nonlinear_arith)
            requires
                y >= n / w + 1,
                w > 0,
                n >= 0,
        ;
        return false;
    }
    assert(y * w <= n) by (nonlinear_arith)
        requires
            y <= n / w,
            w > 0,
            n >= 0,
    ;
    let row: usize = y * w;
    x < n - row
}

/// Counting up and starting over at `m` keeps step with the remainder.
pub proof fn lemma_next_residue(i: int, m: int)
    requires
        0 <= i,
        0 < m,
    ensures
        (i + 1) % m == if i % m == m - 1 {
            0
        } else {
            i % m + 1
        },
        0 <= i % m < m,
{
    vstd::arithmetic::div_mod::lemma_fundamental_div_mod(i, m);
    vstd::arithmetic::div_mod::lemma_mod_bound(i, m);
    let q = i / m;
    let r = i % m;
    if r == m - 1 {
        assert(i + 1 == (q + 1) * m + 0) by (nonlinear_arith)
            requires
                i == m * q + r,
                r == m - 1,
        ;
        vstd::arithmetic::div_mod::lemma_fundamental_div_mod_converse(i + 1, m, q + 1, 0);
    } else {
        assert(i + 1 == q * m + (r + 1)) by (nonlinear_arith)
            requires
                i == m * q + r,
        ;
        vstd::arithmetic::div_mod::lemma_fundamental_div_mod_converse(i + 1, m, q, r + 1);
    }
}

} // verus!
