//! Straight lines between two points of a grid, by `line_drawing`.
//!
//! Which points a line goes through is the crate's to say: the points have a
//! name here, and nothing more is claimed of them.

use vstd::prelude::*;

verus! {

/// The points that `line_drawing::Bresenham` walks through from `start` to
/// `end`, in order.
pub uninterp spec fn bresenham_line(start: (i32, i32), end: (i32, i32)) -> Seq<(i32, i32)>;

/// `line_drawing::Bresenham::new(start, end)`, walked to its end: the points
/// of the line from `start` to `end`. The coordinates must stay below the
/// greatest integer, which the walk steps beyond by one, and must not be
/// negative, so that their differences are integers too.
#[verifier::external_body]
pub(crate) fn bresenham(start: (i32, i32), end: (i32, i32)) -> (points: Vec<(i32, i32)>)
    requires
        0 <= start.0 < i32::MAX,
        0 <= start.1 < i32::MAX,
        0 <= end.0 < i32::MAX,
        0 <= end.1 < i32::MAX,
    ensures
        points@ == bresenham_line(start, end),
{
    line_drawing::Bresenham::new(start, end).collect()
}

} // verus!
