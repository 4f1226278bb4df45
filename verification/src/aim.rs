//! From a frame to a pointer correction: crop, detect the target colour,
//! settle on a cluster, and turn its centre into a vector from the centre of
//! the crop.
//!
//! Fractions are held in thousandths: a threshold of 830 stands for 0.83, a
//! divisor of 3000 for 3.

use crate::cluster::co;
use crate::cluster::find_cluster;
use crate::cluster::frame_fits;
use crate::cluster::in_frame;
use crate::cluster::linked;
use crate::cluster::points_of;
use crate::cluster::pt;
use crate::cluster::select;
use crate::coord::Coord;
use crate::fx::set_insert;
use crate::fx::Point;
use crate::image::image_ops::lemma_matching;
use crate::image::image_ops::threshold_is_valid;
use crate::image::image_ops::valid_thresh;
use crate::image::image_ops::MIN_PIXELS;
use crate::image::Color;
use crate::image::Image;
use rustc_hash::FxHashSet;
use vstd::prelude::*;

verus! {

/// How far growth looks from a member of a cluster for the next one.
pub const CLUSTER_RADIUS: u32 = 2;

/// A cluster counts when the area of its box exceeds that of a box with a
/// twentieth of each side of the crop.
pub const MIN_AREA_DIVISOR: usize = 20;

/// The greatest side of a crop in which the centre of a cluster is worked
/// out.
pub const MAX_SIDE: usize = 0xFFFF;

/// The greatest Y multiplier, in thousandths, for which the biased row of a
/// crop still fits a signed integer of thirty-two bits.
pub const MAX_Y_MULTIPLIER: u32 = 32_767_000;

/// The area that a cluster must exceed in a crop of `w` by `h`.
pub open spec fn min_area_spec(w: usize, h: usize) -> int {
    (w / 20) * (h / 20)
}

/// The candidates of `img`: the positions of its matching pixels as a set.
pub open spec fn candidates(img: &Image, target: Color<u8>, thresh: u32) -> Set<Point> {
    points_of(img.matching(target, thresh))
}

/// What detection settles on in `img`: nothing where the matching pixels are
/// no more than noise, else the first cluster that is large enough.
pub open spec fn located(img: &Image, target: Color<u8>, thresh: u32) -> Option<Set<Point>> {
    if img.matching(target, thresh).len() <= MIN_PIXELS {
        None
    } else {
        select(
            candidates(img, target, thresh),
            CLUSTER_RADIUS,
            (img.w, img.h),
            min_area_spec(img.w, img.h),
        ).0
    }
}

/// The area that a cluster must exceed in a crop of `w` by `h`.
pub fn min_area(w: usize, h: usize) -> (area: usize)
    requires
        min_area_spec(w, h) <= usize::MAX,
    ensures
        area == min_area_spec(w, h),
{
    (w / MIN_AREA_DIVISOR) * (h / MIN_AREA_DIVISOR)
}

/// The positions in `coords` as a set of candidates.
pub fn collect_candidates(coords: &Vec<Coord<usize>>) -> (set: FxHashSet<Point>)
    ensures
        set@ == points_of(coords@),
{
    let mut set: FxHashSet<Point> = FxHashSet::default();
    let mut k: usize = 0;
    while k < coords.len()
        invariant
            k <= coords@.len(),
            set@ == points_of(coords@.take(k as int)),
        decreases coords@.len() - k,
    {
        let c = coords[k];
        let ghost held = set@;
        let _ = set_insert(&mut set, (c.x, c.y));
        proof {
            let before = coords@.take(k as int);
            let after = coords@.take(k + 1);
            assert(after =~= before.push(c));
            assert forall|p: Point| set@.contains(p) <==> points_of(after).contains(p) by {
                if before.contains(co(p)) {
                    let i = choose|i: int| 0 <= i < before.len() && before[i] == co(p);
                    assert(after[i] == co(p));
                }
                if p == pt(c) {
                    assert(after[k as int] == co(p));
                }
                if after.contains(co(p)) {
                    let i = choose|i: int| 0 <= i < after.len() && after[i] == co(p);
                    if i < k {
                        assert(before[i] == co(p));
                    } else {
                        assert(p == pt(c));
                    }
                }
            }
            assert(set@ =~= points_of(after));
        }
        k += 1;
    }
    proof {
        assert(coords@.take(coords@.len() as int) =~= coords@);
    }
    set
}

/// The cluster of the target colour in `img`, which is a crop already: the
/// pixels more similar to `target` than `thresh` thousandths are the
/// candidates, and of the clusters grown among them, nearest the centre
/// first, the first one whose box area exceeds the least area for the crop
/// is the one. Nothing where no cluster is that large, or where the
/// candidates are no more than noise.
pub fn locate(img: &Image, target: Color<u8>, thresh: u32) -> (out: Option<Vec<Coord<usize>>>)
    requires
        img.wf(),
        frame_fits((img.w, img.h)),
        valid_thresh(thresh),
    ensures
        out is Some <==> located(img, target, thresh) is Some,
        out matches Some(cluster) ==> {
            &&& located(img, target, thresh) == Some(points_of(cluster@))
            &&& cluster@.len() > 0
            &&& cluster@.no_duplicates()
            &&& linked(cluster@, CLUSTER_RADIUS)
            &&& forall|i: int|
                0 <= i < cluster@.len() ==> (#[trigger] cluster@[i]).x < img.w && cluster@[i].y
                    < img.h
            &&& cluster@.len() <= img.w * img.h
        },
        img.matching(target, thresh).len() == 0 ==> out is None,
{
    match img.detect_color(target, thresh) {
        None => None,
        Some(found_coords) => {
            let mut set = collect_candidates(&found_coords);
            proof {
                crate::cluster::lemma_half_sides((img.w, img.h));
                assert((img.w / 20) * (img.h / 20) <= 4634 * 4634) by (nonlinear_arith)
                    requires
                        0 <= img.w / 20 <= 4634,
                        0 <= img.h / 20 <= 4634,
                ;
            }
            let area = min_area(img.w, img.h);
            proof {
                lemma_candidates_in_frame(img, target, thresh);
                crate::cluster::lemma_frame_in_reach(set@, CLUSTER_RADIUS, (img.w, img.h));
            }
            let out = find_cluster(&mut set, CLUSTER_RADIUS, (img.w, img.h), area);
            proof {
                if out is Some {
                    lemma_cluster_in_frame(img, target, thresh, out.unwrap()@);
                }
            }
            out
        },
    }
}

/// The candidates of an image lie inside it and are no more than its pixels.
pub proof fn lemma_candidates_in_frame(img: &Image, target: Color<u8>, thresh: u32)
    requires
        img.wf(),
    ensures
        in_frame(candidates(img, target, thresh), (img.w, img.h)),
        candidates(img, target, thresh).finite(),
        candidates(img, target, thresh).len() <= img.w * img.h,
{
    let m = img.matching(target, thresh);
    let s = candidates(img, target, thresh);
    lemma_matching(*img, target, thresh, (img.w * img.h) as nat);
    assert forall|p: Point| s.contains(p) implies p.0 < img.w && p.1 < img.h by {
        assert(m.contains(co(p)));
        assert(p.1 < img.h) by (nonlinear_arith)
            requires
                p.0 + p.1 * img.w < img.w * img.h,
                0 <= p.0,
        ;
    }
    let pts = m.map_values(|c: Coord<usize>| pt(c));
    assert(pts.to_set() =~= s) by {
        assert forall|p: Point| pts.to_set().contains(p) <==> s.contains(p) by {
            if pts.contains(p) {
                let i = choose|i: int| 0 <= i < pts.len() && pts[i] == p;
                assert(m[i] == co(p));
            }
            if m.contains(co(p)) {
                let i = choose|i: int| 0 <= i < m.len() && m[i] == co(p);
                assert(pts[i] == p);
            }
        }
    }
    vstd::seq_lib::seq_to_set_is_finite(pts);
    pts.lemma_cardinality_of_set();
}

/// A cluster without repeats among the candidates of an image lies inside
/// the image and has no more members than the image has pixels.
pub proof fn lemma_cluster_in_frame(
    img: &Image,
    target: Color<u8>,
    thresh: u32,
    cluster: Seq<Coord<usize>>,
)
    requires
        img.wf(),
        cluster.no_duplicates(),
        points_of(cluster).subset_of(candidates(img, target, thresh)),
    ensures
        forall|i: int|
            0 <= i < cluster.len() ==> (#[trigger] cluster[i]).x < img.w && cluster[i].y < img.h,
        cluster.len() <= img.w * img.h,
{
    lemma_candidates_in_frame(img, target, thresh);
    let s = candidates(img, target, thresh);
    assert forall|i: int| 0 <= i < cluster.len() implies (#[trigger] cluster[i]).x < img.w
        && cluster[i].y < img.h by {
        crate::cluster::lemma_member_point(cluster, i);
    }
    let pts = cluster.map_values(|c: Coord<usize>| pt(c));
    assert(pts.no_duplicates()) by {
        assert forall|i: int, j: int|
            0 <= i < pts.len() && 0 <= j < pts.len() && i != j implies pts[i] != pts[j] by {
            assert(cluster[i] != cluster[j]);
        }
    }
    assert(pts.to_set() =~= points_of(cluster)) by {
        assert forall|p: Point| pts.to_set().contains(p) <==> points_of(cluster).contains(p) by {
            if pts.contains(p) {
                let i = choose|i: int| 0 <= i < pts.len() && pts[i] == p;
                assert(cluster[i] == co(p));
            }
            if cluster.contains(co(p)) {
                let i = choose|i: int| 0 <= i < cluster.len() && cluster[i] == co(p);
                assert(pts[i] == p);
            }
        }
    }
    pts.unique_seq_to_set();
    vstd::set_lib::lemma_len_subset(points_of(cluster), s);
}

/// What detection asks of a call: a crop that leaves something of the
/// frame, so much of it as fits, and a threshold strictly between nought and
/// one.
pub open spec fn detectable(frame: &Image, crop_w: usize, crop_h: usize, thresh: u32) -> bool {
    &&& frame.can_crop(crop_w, crop_h)
    &&& frame_fits(((frame.w - 2 * crop_w) as usize, (frame.h - 2 * crop_h) as usize))
    &&& valid_thresh(thresh)
}

/// Whether detection takes the call. It takes no threshold of nought, and
/// none of a thousand thousandths or more, whatever the frame, the crop and
/// the colour.
pub fn can_detect(frame: &Image, crop_w: usize, crop_h: usize, thresh: u32) -> (b: bool)
    ensures
        b == detectable(frame, crop_w, crop_h, thresh),
        thresh == 0 || thresh >= 1000 ==> !b,
{
    if !threshold_is_valid(thresh) {
        return false;
    }
    if crop_w >= frame.w || crop_h >= frame.h {
        return false;
    }
    if crop_w >= frame.w - crop_w || crop_h >= frame.h - crop_h {
        return false;
    }
    crate::cluster::fits(frame.w - crop_w - crop_w, frame.h - crop_h - crop_h)
}

/// The cluster of the target colour in the middle of `frame`: what `locate`
/// finds in the frame without `crop_w` columns on each side and `crop_h`
/// rows at the top and at the bottom.
pub fn detect(frame: &Image, crop_w: usize, crop_h: usize, target: Color<u8>, thresh: u32) -> (out:
    Option<Vec<Coord<usize>>>)
    requires
        frame.wf(),
        detectable(frame, crop_w, crop_h, thresh),
    ensures
        out is Some ==> out.unwrap()@.len() > 0 && out.unwrap()@.no_duplicates() && linked(
            out.unwrap()@,
            CLUSTER_RADIUS,
        ),
        forall|i: int|
            out is Some && 0 <= i < out.unwrap()@.len() ==> (#[trigger] out.unwrap()@[i]).x
                < frame.w - 2 * crop_w && out.unwrap()@[i].y < frame.h - 2 * crop_h,
        exists|cropped: Image|
            {
                &&& is_crop(frame, crop_w, crop_h, &cropped)
                &&& out is Some <==> located(&cropped, target, thresh) is Some
                &&& out is Some ==> located(&cropped, target, thresh) == Some(
                    points_of(out.unwrap()@),
                )
                &&& cropped.matching(target, thresh).len() == 0 ==> out is None
            },
{
    let cropped = frame.crop_to_center(crop_w, crop_h);
    let out = locate(&cropped, target, thresh);
    proof {
        assert(is_crop(frame, crop_w, crop_h, &cropped));
    }
    out
}

/// `cropped` is `frame` without `crop_w` columns on each side and `crop_h`
/// rows at the top and at the bottom.
pub open spec fn is_crop(frame: &Image, crop_w: usize, crop_h: usize, cropped: &Image) -> bool {
    &&& cropped.wf()
    &&& cropped.w == frame.w - 2 * crop_w
    &&& cropped.h == frame.h - 2 * crop_h
    &&& cropped.order() == frame.order()
    &&& forall|x: int, y: int, c: int|
        0 <= x < cropped.w && 0 <= y < cropped.h && 0 <= c < 4 ==> #[trigger] crate::image::subpx_at(
            cropped@,
            cropped.w as int,
            x,
            y,
            c,
        ) == crate::image::subpx_at(frame@, frame.w as int, x + crop_w, y + crop_h, c)
}

/// The sum of the columns of `s`.
pub open spec fn sum_x(s: Seq<Coord<usize>>) -> int
    decreases s.len(),
{
    if s.len() == 0 {
        0
    } else {
        sum_x(s.drop_last()) + s.last().x
    }
}

/// The sum of the rows of `s`.
pub open spec fn sum_y(s: Seq<Coord<usize>>) -> int
    decreases s.len(),
{
    if s.len() == 0 {
        0
    } else {
        sum_y(s.drop_last()) + s.last().y
    }
}

/// Sums of coordinates lie between the count times the least and the count
/// times the greatest coordinate.
pub proof fn lemma_sum_bounds(s: Seq<Coord<usize>>, lo: Coord<usize>, hi: Coord<usize>)
    requires
        forall|i: int|
            0 <= i < s.len() ==> lo.x <= (#[trigger] s[i]).x <= hi.x && lo.y <= s[i].y <= hi.y,
    ensures
        s.len() * lo.x <= sum_x(s) <= s.len() * hi.x,
        s.len() * lo.y <= sum_y(s) <= s.len() * hi.y,
    decreases s.len(),
{
    if s.len() > 0 {
        let front = s.drop_last();
        assert forall|i: int| 0 <= i < front.len() implies lo.x <= (#[trigger] front[i]).x <= hi.x
            && lo.y <= front[i].y <= hi.y by {
            assert(front[i] == s[i]);
        }
        lemma_sum_bounds(front, lo, hi);
        let n = front.len() as int;
        assert(s.len() == n + 1);
        let last = s[s.len() - 1];
        assert(lo.x <= last.x <= hi.x && lo.y <= last.y <= hi.y);
        assert((n + 1) * lo.x == n * lo.x + lo.x && (n + 1) * hi.x == n * hi.x + hi.x && (n + 1)
            * lo.y == n * lo.y + lo.y && (n + 1) * hi.y == n * hi.y + hi.y) by (nonlinear_arith);
    } else {
        assert(0 * lo.x == 0 && 0 * hi.x == 0 && 0 * lo.y == 0 && 0 * hi.y == 0);
    }
}

/// The centre of a cluster: the mean column and the mean row of its
/// members, each rounded down.
pub fn centroid(cluster: &[Coord<usize>]) -> (c: Coord<usize>)
    requires
        cluster@.len() > 0,
        cluster@.len() <= u32::MAX,
        forall|i: int|
            0 <= i < cluster@.len() ==> (#[trigger] cluster@[i]).x <= MAX_SIDE && cluster@[i].y
                <= MAX_SIDE,
    ensures
        c.x == sum_x(cluster@) / (cluster@.len() as int),
        c.y == sum_y(cluster@) / (cluster@.len() as int),
{
    let count: usize = cluster.len();
    let mut sx: u64 = 0;
    let mut sy: u64 = 0;
    let mut k: usize = 0;
    while k < count
        invariant
            count == cluster@.len(),
            count <= u32::MAX,
            k <= count,
            forall|i: int|
                0 <= i < cluster@.len() ==> (#[trigger] cluster@[i]).x <= MAX_SIDE && cluster@[i].y
                    <= MAX_SIDE,
            sx == sum_x(cluster@.take(k as int)),
            sy == sum_y(cluster@.take(k as int)),
            sx <= k * MAX_SIDE,
            sy <= k * MAX_SIDE,
        decreases count - k,
    {
        let c = cluster[k];
        proof {
            assert(cluster@.take(k + 1).drop_last() =~= cluster@.take(k as int));
            assert(k * MAX_SIDE <= 0xFFFF_FFFF * 0xFFFF) by (nonlinear_arith)
                requires
                    k <= 0xFFFF_FFFF,
                    MAX_SIDE == 0xFFFF,
            ;
            assert((k + 1) * MAX_SIDE == k * MAX_SIDE + MAX_SIDE) by (nonlinear_arith);
        }
        sx = sx + c.x as u64;
        sy = sy + c.y as u64;
        k += 1;
    }
    proof {
        assert(cluster@.take(count as int) =~= cluster@);
        lemma_sum_bounds(
            cluster@,
            Coord { x: 0, y: 0 },
            Coord { x: MAX_SIDE, y: MAX_SIDE },
        );
        let n = count as int;
        assert(sum_x(cluster@) / n <= MAX_SIDE && sum_y(cluster@) / n <= MAX_SIDE)
            by (nonlinear_arith)
            requires
                n > 0,
                sum_x(cluster@) <= n * MAX_SIDE,
                sum_y(cluster@) <= n * MAX_SIDE,
        ;
    }
    Coord::new((sx / count as u64) as usize, (sy / count as u64) as usize)
}

/// The centre of a cluster lies inside every box that holds the cluster.
pub proof fn lemma_centroid_in_box(s: Seq<Coord<usize>>, lo: Coord<usize>, hi: Coord<usize>)
    requires
        s.len() > 0,
        forall|i: int|
            0 <= i < s.len() ==> lo.x <= (#[trigger] s[i]).x <= hi.x && lo.y <= s[i].y <= hi.y,
    ensures
        lo.x <= sum_x(s) / (s.len() as int) <= hi.x,
        lo.y <= sum_y(s) / (s.len() as int) <= hi.y,
{
    lemma_sum_bounds(s, lo, hi);
    let n = s.len() as int;
    let (sx, sy) = (sum_x(s), sum_y(s));
    assert(lo.x <= sx / n <= hi.x) by (nonlinear_arith)
        requires
            n > 0,
            n * lo.x <= sx <= n * hi.x,
    ;
    assert(lo.y <= sy / n <= hi.y) by (nonlinear_arith)
        requires
            n > 0,
            n * lo.y <= sy <= n * hi.y,
    ;
}

/// The row `y` under a Y multiplier of `y_multiplier` thousandths, rounded
/// down.
pub open spec fn biased_row(y: int, y_multiplier: u32) -> int {
    (y * y_multiplier) / 1000
}

/// The point to aim at in a cluster: its centre, the row of which is
/// multiplied by `y_multiplier` thousandths.
pub fn aim_point(cluster: &[Coord<usize>], y_multiplier: u32) -> (p: Coord<usize>)
    requires
        cluster@.len() > 0,
        cluster@.len() <= u32::MAX,
        forall|i: int|
            0 <= i < cluster@.len() ==> (#[trigger] cluster@[i]).x <= MAX_SIDE && cluster@[i].y
                <= MAX_SIDE,
        y_multiplier <= MAX_Y_MULTIPLIER,
    ensures
        p.x == sum_x(cluster@) / (cluster@.len() as int),
        p.y == biased_row(sum_y(cluster@) / (cluster@.len() as int), y_multiplier),
        p.x <= MAX_SIDE,
        p.y <= i32::MAX,
{
    let avg = centroid(cluster);
    proof {
        lemma_centroid_in_box(
            cluster@,
            Coord { x: 0, y: 0 },
            Coord { x: MAX_SIDE, y: MAX_SIDE },
        );
        assert(avg.y * y_multiplier <= 0xFFFF * 32_767_000) by (nonlinear_arith)
            requires
                0 <= avg.y <= 0xFFFF,
                0 <= y_multiplier <= 32_767_000,
        ;
    }
    let y: u64 = (avg.y as u64 * y_multiplier as u64) / 1000;
    Coord::new(avg.x, y as usize)
}

/// `a` divided by a positive `b`, rounded towards zero.
pub open spec fn trunc_div(a: int, b: int) -> int {
    if a >= 0 {
        a / b
    } else {
        -((-a) / b)
    }
}

/// One axis of a correction under an aim divisor of `aim_divisor`
/// thousandths: the distance divided by the divisor, rounded towards zero
/// and kept within thirty-two bits.
pub open spec fn scaled(v: int, aim_divisor: u32) -> int {
    let q = trunc_div(v * 1000, aim_divisor as int);
    if q > i32::MAX {
        i32::MAX as int
    } else if q < i32::MIN {
        i32::MIN as int
    } else {
        q
    }
}

/// One axis of a correction under an aim divisor of `aim_divisor`
/// thousandths.
pub fn scale_axis(v: i32, aim_divisor: u32) -> (r: i32)
    requires
        aim_divisor > 0,
    ensures
        r == scaled(v as int, aim_divisor),
{
    let d: u64 = aim_divisor as u64;
    if v >= 0 {
        let q: u64 = (v as u64 * 1000) / d;
        if q > i32::MAX as u64 {
            i32::MAX
        } else {
            q as i32
        }
    } else {
        let m: u64 = (-(v as i64)) as u64;
        let q: u64 = (m * 1000) / d;
        assert(v * 1000 < 0 && -(v * 1000) == m * 1000);
        if q > i32::MAX as u64 {
            i32::MIN
        } else {
            -(q as i32)
        }
    }
}

/// The correction for an aim point `p` in a crop of `w` by `h`: the vector
/// from the centre of the crop to `p`, each axis scaled by the aim divisor.
pub open spec fn correction(p: Coord<usize>, w: usize, h: usize, aim_divisor: u32) -> Coord<i32> {
    Coord {
        x: scaled(p.x - w / 2, aim_divisor) as i32,
        y: scaled(p.y - h / 2, aim_divisor) as i32,
    }
}

/// The correction that brings the pointer from the centre of a crop of `w`
/// by `h` towards `aim_coord`; nothing to aim at gives no correction.
pub fn aim_vector(aim_coord: Option<Coord<usize>>, w: usize, h: usize, aim_divisor: u32) -> (v:
    Coord<i32>)
    requires
        aim_divisor > 0,
        w <= MAX_SIDE,
        h <= MAX_SIDE,
        aim_coord matches Some(p) ==> p.x <= i32::MAX && p.y <= i32::MAX,
    ensures
        aim_coord matches Some(p) ==> v == correction(p, w, h, aim_divisor),
        aim_coord is None ==> v == (Coord { x: 0i32, y: 0i32 }),
{
    let relative_coord = match aim_coord {
        Some(p) => Coord::new(p.x as i32 - (w / 2) as i32, p.y as i32 - (h / 2) as i32),
        None => Coord::new(0, 0),
    };
    Coord::new(scale_axis(relative_coord.x, aim_divisor), scale_axis(relative_coord.y, aim_divisor))
}

/// A frame whose matching pixels are one solid block, more of them than
/// noise and with a box larger than the least area, gives that block: the
/// box of the cluster is the block, and the centre of the cluster lies
/// inside it.
pub proof fn lemma_solid_block_is_located(
    img: &Image,
    target: Color<u8>,
    thresh: u32,
    x0: usize,
    y0: usize,
    x1: usize,
    y1: usize,
    cluster: Seq<Coord<usize>>,
)
    requires
        img.wf(),
        candidates(img, target, thresh) == crate::cluster::block(x0, y0, x1, y1),
        img.matching(target, thresh).len() > MIN_PIXELS,
        x0 <= x1,
        y0 <= y1,
        (x1 - x0 + 1) * (y1 - y0 + 1) > min_area_spec(img.w, img.h),
        cluster.len() > 0,
        points_of(cluster) == crate::cluster::block(x0, y0, x1, y1),
    ensures
        located(img, target, thresh) == Some(crate::cluster::block(x0, y0, x1, y1)),
        crate::cluster::bounds(points_of(cluster), (x0, y0), (x1, y1)),
        x0 <= sum_x(cluster) / (cluster.len() as int) <= x1,
        y0 <= sum_y(cluster) / (cluster.len() as int) <= y1,
{
    let s = candidates(img, target, thresh);
    lemma_candidates_in_frame(img, target, thresh);
    crate::cluster::lemma_block_is_selected(
        s,
        x0,
        y0,
        x1,
        y1,
        CLUSTER_RADIUS,
        (img.w, img.h),
        min_area_spec(img.w, img.h),
    );
    assert forall|i: int| 0 <= i < cluster.len() implies x0 <= (#[trigger] cluster[i]).x <= x1
        && y0 <= cluster[i].y <= y1 by {
        crate::cluster::lemma_member_point(cluster, i);
    }
    lemma_centroid_in_box(cluster, Coord { x: x0, y: y0 }, Coord { x: x1, y: y1 });
}

/// Where the pixels of a block are similar to the target and no pixel
/// around the block is, the candidates are the block.
pub proof fn lemma_block_candidates(
    img: &Image,
    target: Color<u8>,
    thresh: u32,
    x0: usize,
    y0: usize,
    x1: usize,
    y1: usize,
)
    requires
        img.wf(),
        x1 < img.w,
        y1 < img.h,
        forall|x: int, y: int|
            0 <= x < img.w && 0 <= y < img.h ==> (#[trigger] crate::image::image_ops::is_similar(
                img.color_at_2d(x, y),
                target,
                thresh,
            ) <==> x0 <= x <= x1 && y0 <= y <= y1),
    ensures
        candidates(img, target, thresh) == crate::cluster::block(x0, y0, x1, y1),
{
    let found = img.matching(target, thresh);
    lemma_matching(*img, target, thresh, (img.w * img.h) as nat);
    assert forall|p: Point| candidates(img, target, thresh).contains(p) <==> crate::cluster::block(
        x0,
        y0,
        x1,
        y1,
    ).contains(p) by {
        let c = co(p);
        if found.contains(c) {
            assert(p.1 < img.h) by (nonlinear_arith)
                requires
                    p.0 + p.1 * img.w < img.w * img.h,
                    0 <= p.0,
            ;
            assert(crate::image::image_ops::is_similar(
                img.color_at_2d(p.0 as int, p.1 as int),
                target,
                thresh,
            ));
        }
        if x0 <= p.0 <= x1 && y0 <= p.1 <= y1 {
            crate::image::scale::lemma_index_inside(
                p.0 as int,
                p.1 as int,
                img.w as int,
                img.h as int,
            );
            assert(crate::image::image_ops::is_similar(
                img.color_at_2d(p.0 as int, p.1 as int),
                target,
                thresh,
            ));
            assert(found.contains(c));
        }
    }
    assert(candidates(img, target, thresh) =~= crate::cluster::block(x0, y0, x1, y1));
}

/// The centre of the cluster grown in a solid block lies inside the block.
pub proof fn lemma_block_centroid(
    x0: usize,
    y0: usize,
    x1: usize,
    y1: usize,
    radius: u32,
    cluster: Seq<Coord<usize>>,
)
    requires
        radius >= 1,
        cluster.len() > 0,
        crate::cluster::block(x0, y0, x1, y1).contains(pt(cluster[0])),
        points_of(cluster) == crate::cluster::component(
            crate::cluster::block(x0, y0, x1, y1),
            radius,
            pt(cluster[0]),
        ),
    ensures
        x0 <= sum_x(cluster) / (cluster.len() as int) <= x1,
        y0 <= sum_y(cluster) / (cluster.len() as int) <= y1,
{
    crate::cluster::lemma_block_is_one_cluster(x0, y0, x1, y1, radius, cluster);
    assert forall|i: int| 0 <= i < cluster.len() implies x0 <= (#[trigger] cluster[i]).x <= x1
        && y0 <= cluster[i].y <= y1 by {
        crate::cluster::lemma_member_point(cluster, i);
    }
    lemma_centroid_in_box(cluster, Coord { x: x0, y: y0 }, Coord { x: x1, y: y1 });
}

/// A frame without a matching pixel gives no cluster.
pub proof fn lemma_nothing_matches(img: &Image, target: Color<u8>, thresh: u32)
    requires
        img.matching(target, thresh).len() == 0,
    ensures
        located(img, target, thresh) is None,
{
}

} // verus!
