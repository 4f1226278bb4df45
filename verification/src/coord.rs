//! Two-dimensional integer points: pixel positions and relative aim vectors.

use num_traits::AsPrimitive;
use num_traits::Bounded;
use vstd::prelude::*;

verus! {

/// `num_traits::AsPrimitive::as_` from `usize` to `i32`, which is the cast
/// `as`: a number that fits `i32` comes out as it went in. Nothing is claimed
/// of a greater one.
#[verifier::external_body]
fn as_i32(v: usize) -> (r: i32)
    requires
        v <= i32::MAX,
    ensures
        r == v,
{
    AsPrimitive::<i32>::as_(v)
}

/// `num_traits::Bounded::min_value` of `usize`: the least `usize`, zero.
#[verifier::external_body]
fn least() -> (v: usize)
    ensures
        v == 0,
{
    <usize as Bounded>::min_value()
}

/// `num_traits::Bounded::max_value` of `usize`: the greatest `usize`.
#[verifier::external_body]
fn greatest() -> (v: usize)
    ensures
        v == usize::MAX,
{
    <usize as Bounded>::max_value()
}

/// A point of the integer plane.
#[derive(Debug, Copy, Clone, PartialEq, Eq, Hash, Structural)]
pub struct Coord<T> {
    pub x: T,
    pub y: T,
}

impl<T: Copy> Coord<T> {
    pub fn new(x: T, y: T) -> (c: Self)
        ensures
            c.x == x,
            c.y == y,
    {
        Coord { x, y }
    }
}

/// The squared Euclidean distance between `(ax, ay)` and `(bx, by)`.
pub open spec fn square_dist_spec(ax: int, ay: int, bx: int, by: int) -> int {
    (ax - bx) * (ax - bx) + (ay - by) * (ay - by)
}

/// `lo` and `hi` are the corners of the smallest axis-parallel box that
/// holds every point of `s`: each of its four sides touches a point.
pub open spec fn is_bbox(s: Seq<Coord<usize>>, lo: Coord<usize>, hi: Coord<usize>) -> bool {
    &&& forall|i: int|
        0 <= i < s.len() ==> lo.x <= (#[trigger] s[i]).x <= hi.x && lo.y <= s[i].y <= hi.y
    &&& exists|i: int| 0 <= i < s.len() && (#[trigger] s[i]).x == lo.x
    &&& exists|i: int| 0 <= i < s.len() && (#[trigger] s[i]).x == hi.x
    &&& exists|i: int| 0 <= i < s.len() && (#[trigger] s[i]).y == lo.y
    &&& exists|i: int| 0 <= i < s.len() && (#[trigger] s[i]).y == hi.y
}

impl Coord<usize> {
    /// Componentwise sum.
    pub fn add(self, other: Self) -> (sum: Self)
        requires
            self.x + other.x <= usize::MAX,
            self.y + other.y <= usize::MAX,
        ensures
            sum.x == self.x + other.x,
            sum.y == self.y + other.y,
    {
        Coord { x: self.x + other.x, y: self.y + other.y }
    }

    /// Adds `other` to `self` in place.
    pub fn add_assign(&mut self, other: Self)
        requires
            old(self).x + other.x <= usize::MAX,
            old(self).y + other.y <= usize::MAX,
        ensures
            final(self).x == old(self).x + other.x,
            final(self).y == old(self).y + other.y,
    {
        *self = Coord { x: self.x + other.x, y: self.y + other.y };
    }

    /// Componentwise difference.
    pub fn sub(self, other: Self) -> (diff: Self)
        requires
            other.x <= self.x,
            other.y <= self.y,
        ensures
            diff.x == self.x - other.x,
            diff.y == self.y - other.y,
    {
        Coord { x: self.x - other.x, y: self.y - other.y }
    }

    /// Subtracts `other` from `self` in place.
    pub fn sub_assign(&mut self, other: Self)
        requires
            other.x <= old(self).x,
            other.y <= old(self).y,
        ensures
            final(self).x == old(self).x - other.x,
            final(self).y == old(self).y - other.y,
    {
        *self = Coord { x: self.x - other.x, y: self.y - other.y };
    }

    /// The squared distance to `other`, for points whose squared distance
    /// fits the result type.
    pub fn square_dist(&self, other: Coord<usize>) -> (d: i32)
        requires
            self.x <= i32::MAX,
            self.y <= i32::MAX,
            other.x <= i32::MAX,
            other.y <= i32::MAX,
            square_dist_spec(self.x as int, self.y as int, other.x as int, other.y as int)
                <= i32::MAX,
        ensures
            d == square_dist_spec(self.x as int, self.y as int, other.x as int, other.y as int),
    {
        let a: i32 = as_i32(self.x) - as_i32(other.x);
        let b: i32 = as_i32(self.y) - as_i32(other.y);
        assert(0 <= a * a && 0 <= b * b) by (nonlinear_arith);
        (a * a) + (b * b)
    }

    /// The corners of the bounding box of `coord_cluster`: the least and the
    /// greatest coordinate on each axis. Of no points at all, the box is
    /// inside out: its low corner is the greatest point, its high corner the
    /// origin.
    pub fn bbox(coord_cluster: &[Coord<usize>]) -> (corners: (Coord<usize>, Coord<usize>))
        ensures
            coord_cluster@.len() > 0 ==> is_bbox(coord_cluster@, corners.0, corners.1),
            coord_cluster@.len() == 0 ==> corners.0 == (Coord { x: usize::MAX, y: usize::MAX })
                && corners.1 == (Coord { x: 0usize, y: 0usize }),
    {
        let mut x_max: usize = least();
        let mut y_max: usize = least();
        let mut x_min: usize = greatest();
        let mut y_min: usize = greatest();
        let mut k: usize = 0;
        while k < coord_cluster.len()
            invariant
                k <= coord_cluster@.len(),
                k == 0 ==> x_max == 0 && y_max == 0 && x_min == usize::MAX && y_min == usize::MAX,
                k > 0 ==> is_bbox(
                    coord_cluster@.take(k as int),
                    Coord { x: x_min, y: y_min },
                    Coord { x: x_max, y: y_max },
                ),
            decreases coord_cluster@.len() - k,
        {
            let coord = coord_cluster[k];
            let ghost before = coord_cluster@.take(k as int);
            let ghost after = coord_cluster@.take(k + 1);
            let ghost (px_min, py_min, px_max, py_max) = (x_min, y_min, x_max, y_max);
            if coord.x > x_max {
                x_max = coord.x;
            }
            if coord.y > y_max {
                y_max = coord.y;
            }
            if coord.x < x_min {
                x_min = coord.x;
            }
            if coord.y < y_min {
                y_min = coord.y;
            }
            proof {
                assert(after[k as int] == coord);
                assert(forall|i: int| 0 <= i < k ==> after[i] == before[i]);
                if k > 0 {
                    let ix0 = choose|i: int| 0 <= i < k && (#[trigger] before[i]).x == px_min;
                    let ix1 = choose|i: int| 0 <= i < k && (#[trigger] before[i]).x == px_max;
                    let iy0 = choose|i: int| 0 <= i < k && (#[trigger] before[i]).y == py_min;
                    let iy1 = choose|i: int| 0 <= i < k && (#[trigger] before[i]).y == py_max;
                    assert(after[ix0] == before[ix0] && after[ix1] == before[ix1]);
                    assert(after[iy0] == before[iy0] && after[iy1] == before[iy1]);
                }
            }
            k += 1;
        }
        proof {
            assert(coord_cluster@.take(coord_cluster@.len() as int) =~= coord_cluster@);
        }
        (Coord { x: x_min, y: y_min }, Coord { x: x_max, y: y_max })
    }

    /// The bounding box of a non-empty cluster as its low corner and its
    /// extent: `(x, y, w, h)` with `w` and `h` the differences between the
    /// greatest and the least coordinate.
    pub fn bbox_xywh(coord_cluster: &[Coord<usize>]) -> (xywh: (usize, usize, usize, usize))
        requires
            coord_cluster@.len() > 0,
        ensures
            is_bbox(
                coord_cluster@,
                Coord { x: xywh.0, y: xywh.1 },
                Coord { x: (xywh.0 + xywh.2) as usize, y: (xywh.1 + xywh.3) as usize },
            ),
            xywh.0 + xywh.2 <= usize::MAX,
            xywh.1 + xywh.3 <= usize::MAX,
    {
        let (min_coord, max_coord) = Self::bbox(coord_cluster);
        (min_coord.x, min_coord.y, max_coord.x - min_coord.x, max_coord.y - min_coord.y)
    }
}

impl Coord<i32> {
    /// Componentwise sum.
    pub fn add(self, other: Self) -> (sum: Self)
        requires
            i32::MIN <= self.x + other.x <= i32::MAX,
            i32::MIN <= self.y + other.y <= i32::MAX,
        ensures
            sum.x == self.x + other.x,
            sum.y == self.y + other.y,
    {
        Coord { x: self.x + other.x, y: self.y + other.y }
    }

    /// Adds `other` to `self` in place.
    pub fn add_assign(&mut self, other: Self)
        requires
            i32::MIN <= old(self).x + other.x <= i32::MAX,
            i32::MIN <= old(self).y + other.y <= i32::MAX,
        ensures
            final(self).x == old(self).x + other.x,
            final(self).y == old(self).y + other.y,
    {
        *self = Coord { x: self.x + other.x, y: self.y + other.y };
    }

    /// Componentwise difference.
    pub fn sub(self, other: Self) -> (diff: Self)
        requires
            i32::MIN <= self.x - other.x <= i32::MAX,
            i32::MIN <= self.y - other.y <= i32::MAX,
        ensures
            diff.x == self.x - other.x,
            diff.y == self.y - other.y,
    {
        Coord { x: self.x - other.x, y: self.y - other.y }
    }

    /// Subtracts `other` from `self` in place.
    pub fn sub_assign(&mut self, other: Self)
        requires
            i32::MIN <= old(self).x - other.x <= i32::MAX,
            i32::MIN <= old(self).y - other.y <= i32::MAX,
        ensures
            final(self).x == old(self).x - other.x,
            final(self).y == old(self).y - other.y,
    {
        *self = Coord { x: self.x - other.x, y: self.y - other.y };
    }
}

} // verus!
