//! The first way to find the target: the mean position of all matching
//! pixels, without telling clusters apart.

use crate::aim::centroid;
use crate::aim::sum_x;
use crate::aim::sum_y;
use crate::aim::MAX_SIDE;
use crate::coord::Coord;
use crate::image::image_ops::lemma_matching;
use crate::image::image_ops::valid_thresh;
use crate::image::image_ops::MIN_PIXELS;
use crate::image::subpx_at;
use crate::image::Color;
use crate::image::Image;
use crate::image::Pixel;
use crate::image::PixelOrder;
use vstd::prelude::*;

verus! {

/// The middle of `img`, as `Image::crop_to_center` cuts it, in a buffer that
/// counts as laid out blue first whatever `img` is.
pub fn crop_to_center(img: &Image, crop_w: usize, crop_h: usize) -> (out: Image)
    requires
        img.wf(),
        img.can_crop(crop_w, crop_h),
    ensures
        out.wf(),
        out.w == img.w - 2 * crop_w,
        out.h == img.h - 2 * crop_h,
        out.order() == PixelOrder::BGRA,
        forall|x: int, y: int, c: int|
            0 <= x < out.w && 0 <= y < out.h && 0 <= c < 4 ==> #[trigger] subpx_at(
                out@,
                out.w as int,
                x,
                y,
                c,
            ) == subpx_at(img@, img.w as int, x + crop_w, y + crop_h, c),
{
    let cropped = img.crop_to_center(crop_w, crop_h);
    let (w, h) = (cropped.w, cropped.h);
    Image::new(cropped.buf, PixelOrder::BGRA, w, h)
}

/// The colour that a pixel stands for: the pixel, opaque.
pub open spec fn opaque(px: Pixel) -> Color<u8> {
    Color { r: px.r, g: px.g, b: px.b, a: 255 }
}

/// A row divided by a Y divisor of `y_divisor` thousandths, rounded down.
pub open spec fn divided_row(y: int, y_divisor: u32) -> int {
    (y * 1000) / (y_divisor as int)
}

/// The mean position of the pixels of `img` that are more similar to
/// `target` than `thresh` thousandths, its row divided by `y_divisor`
/// thousandths; nothing where the matching pixels are no more than noise.
pub fn color_range_avg_pos(img: &Image, target: Pixel, thresh: u32, y_divisor: u32) -> (pos:
    Option<Coord<usize>>)
    requires
        img.wf(),
        img.w <= MAX_SIDE,
        img.h <= MAX_SIDE,
        valid_thresh(thresh),
        y_divisor > 0,
    ensures
        ({
            let found = img.matching(opaque(target), thresh);
            if found.len() > MIN_PIXELS {
                pos matches Some(p) && p.x == sum_x(found) / (found.len() as int) && p.y
                    == divided_row(sum_y(found) / (found.len() as int), y_divisor)
            } else {
                pos is None
            }
        }),
{
    let color = Color::new(target.r, target.g, target.b, 255);
    match img.detect_color(color, thresh) {
        None => None,
        Some(found) => {
            proof {
                lemma_matching(*img, color, thresh, (img.w * img.h) as nat);
                assert(found@.len() <= 0xFFFF * 0xFFFF) by (nonlinear_arith)
                    requires
                        found@.len() <= img.w * img.h,
                        img.w <= 0xFFFF,
                        img.h <= 0xFFFF,
                ;
                assert forall|i: int| 0 <= i < found@.len() implies (#[trigger] found@[i]).x
                    <= MAX_SIDE && found@[i].y <= MAX_SIDE by {
                    let c = found@[i];
                    assert(found@.contains(c));
                    assert(c.y < img.h) by (nonlinear_arith)
                        requires
                            c.x + c.y * img.w < img.w * img.h,
                            0 <= c.x,
                    ;
                }
                crate::aim::lemma_centroid_in_box(
                    found@,
                    Coord { x: 0, y: 0 },
                    Coord { x: MAX_SIDE, y: MAX_SIDE },
                );
            }
            let avg = centroid(found.as_slice());
            let y: u64 = (avg.y as u64 * 1000) / y_divisor as u64;
            Some(Coord::new(avg.x, y as usize))
        },
    }
}

} // verus!
