//! Growing clusters of matching pixels: from the candidate nearest the
//! centre of the frame, outwards through neighbouring candidates.

use crate::coord::square_dist_spec;
use crate::coord::Coord;
use crate::fx::set_items;
use crate::fx::set_take;
use crate::fx::Point;
use rustc_hash::FxHashSet;
use vstd::prelude::*;

verus! {

/// The pair that stands for `c` in a set of candidates.
pub open spec fn pt(c: Coord<usize>) -> Point {
    (c.x, c.y)
}

/// The position that the pair `p` stands for.
pub open spec fn co(p: Point) -> Coord<usize> {
    Coord { x: p.0, y: p.1 }
}

/// `b` lies on the ring of `a` at distance `o`: on each axis it is `o` away
/// from `a` or level with it, and it is not `a`.
pub open spec fn on_ring(a: Point, b: Point, o: int) -> bool {
    let dx = b.0 - a.0;
    let dy = b.1 - a.1;
    &&& dx == 0 || dx == o || dx == -o
    &&& dy == 0 || dy == o || dy == -o
    &&& !(dx == 0 && dy == 0)
}

/// The greater of the two axis distances between `a` and `b`.
pub open spec fn span(a: Point, b: Point) -> int {
    let dx = if b.0 >= a.0 {
        b.0 - a.0
    } else {
        a.0 - b.0
    };
    let dy = if b.1 >= a.1 {
        b.1 - a.1
    } else {
        a.1 - b.1
    };
    if dx >= dy {
        dx
    } else {
        dy
    }
}

/// `b` is a neighbour of `a` within `radius`: it lies on one of the rings of
/// `a` at a distance from 1 to `radius`, straight or diagonally across.
pub open spec fn adjacent(a: Point, b: Point, radius: u32) -> bool {
    1 <= span(a, b) <= radius && on_ring(a, b, span(a, b))
}

/// The eight positions of the ring of `c` at distance `offset`, from the one
/// up and to the left. A coordinate that would fall below zero wraps round to
/// the far end of the integers, where no frame reaches.
pub open spec fn neighbors_at(c: Coord<usize>, offset: usize) -> Seq<Coord<usize>> {
    let xinc = (c.x + offset) as usize;
    let yinc = (c.y + offset) as usize;
    let xdec = c.x.wrapping_sub(offset);
    let ydec = c.y.wrapping_sub(offset);
    seq![
        Coord { x: xdec, y: ydec },
        Coord { x: c.x, y: ydec },
        Coord { x: xinc, y: ydec },
        Coord { x: c.x, y: yinc },
        Coord { x: xinc, y: c.y },
        Coord { x: xdec, y: c.y },
        Coord { x: xdec, y: yinc },
        Coord { x: xinc, y: yinc },
    ]
}

/// The rings of `c` at the distances from 1 to `range`, nearest first.
pub open spec fn neighbors(c: Coord<usize>, range: nat) -> Seq<Coord<usize>>
    decreases range,
{
    if range == 0 {
        Seq::empty()
    } else {
        neighbors(c, (range - 1) as nat) + neighbors_at(c, range as usize)
    }
}

/// The positions around `c` that growth looks at: eight for each distance
/// from 1 to `range`.
pub fn coord_neighbors(c: Coord<usize>, range: u32) -> (out: Vec<Coord<usize>>)
    requires
        c.x + range <= usize::MAX,
        c.y + range <= usize::MAX,
    ensures
        out@ == neighbors(c, range as nat),
{
    let mut out: Vec<Coord<usize>> = Vec::new();
    let mut offset: usize = 0;
    let range: usize = range as usize;
    while offset < range
        invariant
            offset <= range,
            c.x + range <= usize::MAX,
            c.y + range <= usize::MAX,
            out@ == neighbors(c, offset as nat),
        decreases range - offset,
    {
        offset += 1;
        let ghost before = out@;
        let (xinc, yinc) = (c.x + offset, c.y + offset);
        let (xdec, ydec) = (c.x.wrapping_sub(offset), c.y.wrapping_sub(offset));
        out.push(Coord::new(xdec, ydec));
        out.push(Coord::new(c.x, ydec));
        out.push(Coord::new(xinc, ydec));
        out.push(Coord::new(c.x, yinc));
        out.push(Coord::new(xinc, c.y));
        out.push(Coord::new(xdec, c.y));
        out.push(Coord::new(xdec, yinc));
        out.push(Coord::new(xinc, yinc));
        assert(out@ =~= before + neighbors_at(c, offset));
    }
    out
}

/// Among positions that leave room for `radius` below the greatest integer,
/// the rings of `c` hold exactly its neighbours.
pub proof fn lemma_neighbors_are_adjacent(c: Coord<usize>, b: Coord<usize>, radius: u32)
    requires
        c.x + radius <= usize::MAX,
        c.y + radius <= usize::MAX,
        b.x + radius <= usize::MAX,
        b.y + radius <= usize::MAX,
    ensures
        neighbors(c, radius as nat).contains(b) <==> adjacent(pt(c), pt(b), radius),
    decreases radius,
{
    if radius == 0 {
    } else {
        let r = (radius - 1) as u32;
        lemma_neighbors_are_adjacent(c, b, r);
        let inner = neighbors(c, r as nat);
        let ring = neighbors_at(c, radius as usize);
        let all = neighbors(c, radius as nat);
        assert(all == inner + ring);
        assert(ring.len() == 8);
        let here = on_ring(pt(c), pt(b), radius as int);
        assert(ring.contains(b) <==> here) by {
            if ring.contains(b) {
                let i = choose|i: int| 0 <= i < ring.len() && ring[i] == b;
                assert(ring[i] == b);
            }
            if here {
                let dx = b.x - c.x;
                let dy = b.y - c.y;
                let i: int = if dx < 0 && dy < 0 {
                    0
                } else if dx == 0 && dy < 0 {
                    1
                } else if dx > 0 && dy < 0 {
                    2
                } else if dx == 0 && dy > 0 {
                    3
                } else if dx > 0 && dy == 0 {
                    4
                } else if dx < 0 && dy == 0 {
                    5
                } else if dx < 0 && dy > 0 {
                    6
                } else {
                    7
                };
                assert(ring[i] == b);
            }
        }
        assert(all.contains(b) <==> inner.contains(b) || ring.contains(b)) by {
            if all.contains(b) {
                let i = choose|i: int| 0 <= i < all.len() && all[i] == b;
                if i < inner.len() {
                    assert(inner[i] == b);
                } else {
                    assert(ring[i - inner.len()] == b);
                }
            }
            if inner.contains(b) {
                let i = choose|i: int| 0 <= i < inner.len() && inner[i] == b;
                assert(all[i] == b);
            }
            if ring.contains(b) {
                let i = choose|i: int| 0 <= i < ring.len() && ring[i] == b;
                assert(all[inner.len() + i] == b);
            }
        }
    }
}

/// How far, squared, `p` is from the centre of a frame of `dims`.
pub open spec fn center_dist(p: Point, dims: (usize, usize)) -> int {
    square_dist_spec(p.0 as int, p.1 as int, (dims.0 / 2) as int, (dims.1 / 2) as int)
}

/// `p` comes before `q` as a seed: it is nearer to the centre of the frame
/// or, at the same distance, higher up or, in the same row, further left.
pub open spec fn before(p: Point, q: Point, dims: (usize, usize)) -> bool {
    let dp = center_dist(p, dims);
    let dq = center_dist(q, dims);
    dp < dq || (dp == dq && (p.1 < q.1 || (p.1 == q.1 && p.0 < q.0)))
}

/// `p` is the candidate of `s` that growth starts from: it comes before
/// every other one.
pub open spec fn is_seed(s: Set<Point>, dims: (usize, usize), p: Point) -> bool {
    s.contains(p) && forall|q: Point| s.contains(q) && q != p ==> before(p, q, dims)
}

/// A set of candidates has at most one seed, and nothing in the set is
/// nearer to the centre than it.
pub proof fn lemma_seed_is_nearest(s: Set<Point>, dims: (usize, usize), p: Point, q: Point)
    requires
        is_seed(s, dims, p),
    ensures
        is_seed(s, dims, q) ==> p == q,
        s.contains(q) ==> center_dist(p, dims) <= center_dist(q, dims),
{
}

/// Every candidate lies inside a frame of `dims`.
pub open spec fn in_frame(s: Set<Point>, dims: (usize, usize)) -> bool {
    forall|p: Point| s.contains(p) ==> p.0 < dims.0 && p.1 < dims.1
}

/// The arithmetic of growth reaches every candidate: its coordinates and
/// those of the centre of the frame fit a signed integer of thirty-two
/// bits, so does its squared distance to the centre, and `radius` more than
/// either coordinate is still an integer.
pub open spec fn in_reach(s: Set<Point>, radius: u32, dims: (usize, usize)) -> bool {
    forall|p: Point| #[trigger]
        s.contains(p) ==> {
            &&& p.0 <= i32::MAX
            &&& p.1 <= i32::MAX
            &&& dims.0 / 2 <= i32::MAX
            &&& dims.1 / 2 <= i32::MAX
            &&& center_dist(p, dims) <= i32::MAX
            &&& p.0 + radius <= usize::MAX
            &&& p.1 + radius <= usize::MAX
        }
}

/// The greatest squared distance to the centre of a frame of `dims`, which
/// is that of its first pixel, fits a signed integer of thirty-two bits.
pub open spec fn frame_fits(dims: (usize, usize)) -> bool {
    (dims.0 / 2) * (dims.0 / 2) + (dims.1 / 2) * (dims.1 / 2) <= i32::MAX
}

/// Whether a frame of `w` by `h` fits.
pub fn fits(w: usize, h: usize) -> (b: bool)
    ensures
        b == frame_fits((w, h)),
{
    let a = w / 2;
    let c = h / 2;
    if a > 46340 || c > 46340 {
        proof {
            if frame_fits((w, h)) {
                lemma_half_sides((w, h));
            }
        }
        return false;
    }
    assert(a * a <= 46340 * 46340 && c * c <= 46340 * 46340) by (nonlinear_arith)
        requires
            0 <= a <= 46340,
            0 <= c <= 46340,
    ;
    let a = a as u64;
    let c = c as u64;
    a * a + c * c <= 2147483647
}

/// A frame whose sides fit sixteen bits is one that fits.
pub proof fn lemma_sides_fit(dims: (usize, usize))
    requires
        dims.0 <= 0xFFFF,
        dims.1 <= 0xFFFF,
    ensures
        frame_fits(dims),
{
    let a = (dims.0 / 2) as int;
    let b = (dims.1 / 2) as int;
    assert(a * a <= 32767 * 32767) by (nonlinear_arith)
        requires
            0 <= a <= 32767,
    ;
    assert(b * b <= 32767 * 32767) by (nonlinear_arith)
        requires
            0 <= b <= 32767,
    ;
}

/// Inside a frame that fits every candidate is in reach, for a radius that
/// leaves room above the sides.
pub proof fn lemma_frame_in_reach(s: Set<Point>, radius: u32, dims: (usize, usize))
    requires
        in_frame(s, dims),
        frame_fits(dims),
        dims.0 + radius <= usize::MAX,
        dims.1 + radius <= usize::MAX,
    ensures
        in_reach(s, radius, dims),
{
    lemma_half_sides(dims);
    assert forall|p: Point| #[trigger] s.contains(p) implies center_dist(p, dims) <= i32::MAX by {
        lemma_center_dist_fits(p, dims);
    }
}

/// Half of each side of a frame that fits is less than the root of the
/// greatest signed integer of thirty-two bits.
pub proof fn lemma_half_sides(dims: (usize, usize))
    requires
        frame_fits(dims),
    ensures
        dims.0 / 2 <= 46340,
        dims.1 / 2 <= 46340,
        dims.0 <= 92681,
        dims.1 <= 92681,
{
    let a = (dims.0 / 2) as int;
    let b = (dims.1 / 2) as int;
    assert(0 <= a * a && 0 <= b * b) by (nonlinear_arith);
    assert(a <= 46340) by (nonlinear_arith)
        requires
            0 <= a,
            a * a <= 2147483647,
    ;
    assert(b <= 46340) by (nonlinear_arith)
        requires
            0 <= b,
            b * b <= 2147483647,
    ;
}

/// `path` walks through `s`, each step to a neighbour within `radius`.
pub open spec fn is_path(s: Set<Point>, radius: u32, path: Seq<Point>) -> bool {
    &&& path.len() > 0
    &&& forall|i: int| 0 <= i < path.len() ==> s.contains(#[trigger] path[i])
    &&& forall|i: int|
        0 <= i < path.len() - 1 ==> adjacent(#[trigger] path[i], path[i + 1], radius)
}

/// Some path through `s` leads from `from` to `to`.
pub open spec fn reachable(s: Set<Point>, radius: u32, from: Point, to: Point) -> bool {
    exists|path: Seq<Point>|
        #[trigger] is_path(s, radius, path) && path[0] == from && path.last() == to
}

/// The candidates of `s` that can be reached from `seed`.
pub open spec fn component(s: Set<Point>, radius: u32, seed: Point) -> Set<Point> {
    Set::new(|p: Point| reachable(s, radius, seed, p))
}

/// Member `k` is a neighbour of an earlier member.
pub open spec fn has_parent(cluster: Seq<Coord<usize>>, radius: u32, k: int) -> bool {
    exists|j: int| 0 <= j < k && adjacent(pt(#[trigger] cluster[j]), pt(cluster[k]), radius)
}

/// Every member after the first is a neighbour of an earlier one.
pub open spec fn linked(cluster: Seq<Coord<usize>>, radius: u32) -> bool {
    forall|k: int| 0 < k < cluster.len() ==> #[trigger] has_parent(cluster, radius, k)
}

/// The pairs that stand for the members of `cluster`.
pub open spec fn points_of(cluster: Seq<Coord<usize>>) -> Set<Point> {
    Set::new(|p: Point| cluster.contains(co(p)))
}

/// Every member of a linked cluster inside `s` can be reached from the first.
pub proof fn lemma_linked_is_reachable(
    s: Set<Point>,
    radius: u32,
    cluster: Seq<Coord<usize>>,
    k: int,
)
    requires
        linked(cluster, radius),
        0 <= k < cluster.len(),
        forall|i: int| 0 <= i < cluster.len() ==> s.contains(pt(#[trigger] cluster[i])),
    ensures
        reachable(s, radius, pt(cluster[0]), pt(cluster[k])),
    decreases k,
{
    if k == 0 {
        let path = seq![pt(cluster[0])];
        assert(is_path(s, radius, path));
        assert(path[0] == pt(cluster[0]) && path.last() == pt(cluster[0]));
    } else {
        assert(has_parent(cluster, radius, k));
        let j = choose|j: int|
            0 <= j < k && adjacent(pt(#[trigger] cluster[j]), pt(cluster[k]), radius);
        lemma_linked_is_reachable(s, radius, cluster, j);
        let path = choose|path: Seq<Point>|
            #[trigger] is_path(s, radius, path) && path[0] == pt(cluster[0]) && path.last() == pt(
                cluster[j],
            );
        let longer = path.push(pt(cluster[k]));
        assert forall|i: int| 0 <= i < longer.len() implies s.contains(#[trigger] longer[i]) by {
            if i < path.len() {
                assert(longer[i] == path[i]);
            }
        }
        assert forall|i: int| 0 <= i < longer.len() - 1 implies adjacent(
            #[trigger] longer[i],
            longer[i + 1],
            radius,
        ) by {
            if i < path.len() - 1 {
                assert(longer[i] == path[i] && longer[i + 1] == path[i + 1]);
            }
        }
        assert(is_path(s, radius, longer));
        assert(longer[0] == pt(cluster[0]) && longer.last() == pt(cluster[k]));
    }
}

/// A cluster that holds its seed and, with each member, the neighbours that
/// the member has in `s`, holds whatever a path through `s` reaches.
pub proof fn lemma_closed_holds_path(
    s: Set<Point>,
    radius: u32,
    cluster: Seq<Coord<usize>>,
    path: Seq<Point>,
    t: int,
)
    requires
        cluster.len() > 0,
        is_path(s, radius, path),
        path[0] == pt(cluster[0]),
        0 <= t < path.len(),
        forall|j: int, p: Point|
            0 <= j < cluster.len() && s.contains(p) && #[trigger] adjacent(pt(cluster[j]), p, radius)
                ==> cluster.contains(co(p)),
    ensures
        cluster.contains(co(path[t])),
    decreases t,
{
    if t == 0 {
        assert(cluster[0] == co(path[0]));
    } else {
        lemma_closed_holds_path(s, radius, cluster, path, t - 1);
        let j = choose|j: int| 0 <= j < cluster.len() && cluster[j] == co(path[t - 1]);
        assert(pt(cluster[j]) == path[t - 1]);
        assert(adjacent(path[t - 1], path[t - 1 + 1], radius));
    }
}

/// The cluster grown from the seed of `coords`, taken out of `coords`: the
/// candidate nearest the centre of a frame of `dims` first (of several
/// equally near, the one that is highest up and then furthest left), then
/// every candidate that a chain of neighbours within `radius` links to it.
/// Nothing where there are no candidates.
pub fn take_any_cluster(
    coords: &mut FxHashSet<Point>,
    radius: u32,
    dims: (usize, usize),
) -> (out: Option<Vec<Coord<usize>>>)
    requires
        in_reach(old(coords)@, radius, dims),
    ensures
        old(coords)@.is_empty() ==> out is None && final(coords)@ == old(coords)@,
        !old(coords)@.is_empty() ==> out is Some,
        out matches Some(cluster) ==> {
            &&& cluster@.len() > 0
            &&& is_seed(old(coords)@, dims, pt(cluster@[0]))
            &&& forall|q: Point| #[trigger]
                old(coords)@.contains(q) ==> center_dist(pt(cluster@[0]), dims) <= center_dist(
                    q,
                    dims,
                )
            &&& cluster@.no_duplicates()
            &&& linked(cluster@, radius)
            &&& points_of(cluster@) == component(old(coords)@, radius, pt(cluster@[0]))
            &&& final(coords)@ == old(coords)@.difference(points_of(cluster@))
            &&& old(coords)@.finite()
            &&& cluster@.len() + final(coords)@.len() == old(coords)@.len()
        },
{
    if coords.is_empty() {
        return None;
    }
    let ghost all = coords@;
    let items = set_items(coords);
    proof {
        vstd::seq_lib::seq_to_set_is_finite(items@);
        if items@.len() == 0 {
            assert(items@.to_set() =~= Set::<Point>::empty());
        }
    }
    let init_coord = nearest(&items, radius, dims, Ghost(all));
    let _ = set_take(coords, (init_coord.x, init_coord.y));

    let mut out: Vec<Coord<usize>> = Vec::new();
    out.push(init_coord);
    let mut i: usize = 0;
    proof {
        assert(out@.contains(init_coord)) by {
            assert(out@[0] == init_coord);
        }
        assert(coords@ =~= all.difference(points_of(out@))) by {
            assert forall|p: Point| coords@.contains(p) <==> all.contains(p) && !points_of(
                out@,
            ).contains(p) by {
                if out@.contains(co(p)) {
                    let k = choose|k: int| 0 <= k < out@.len() && out@[k] == co(p);
                    assert(p == pt(init_coord));
                }
            }
        }
    }
    while i < out.len()
        invariant
            all.finite(),
            in_reach(all, radius, dims),
            i <= out@.len(),
            out@.len() > 0,
            out@[0] == init_coord,
            out@.no_duplicates(),
            linked(out@, radius),
            forall|k: int| 0 <= k < out@.len() ==> all.contains(pt(#[trigger] out@[k])),
            coords@ == all.difference(points_of(out@)),
            coords@.len() + out@.len() == all.len(),
            forall|j: int, p: Point|
                0 <= j < i && all.contains(p) && #[trigger] adjacent(pt(out@[j]), p, radius)
                    ==> out@.contains(co(p)),
        decreases coords@.len() + out@.len() - i,
    {
        let coord = out[i];
        assert(all.contains(pt(out@[i as int])));
        let nbrs = coord_neighbors(coord, radius);
        let ghost grown_from = out@;
        let mut j: usize = 0;
        while j < nbrs.len()
            invariant
                all.finite(),
                in_reach(all, radius, dims),
                all.contains(pt(coord)),
                i < out@.len(),
                j <= nbrs@.len(),
                nbrs@ == neighbors(coord, radius as nat),
                grown_from.len() <= out@.len(),
                forall|k: int| 0 <= k < grown_from.len() ==> out@[k] == grown_from[k],
                out@[i as int] == coord,
                out@[0] == init_coord,
                out@.no_duplicates(),
                linked(out@, radius),
                forall|k: int| 0 <= k < out@.len() ==> all.contains(pt(#[trigger] out@[k])),
                coords@ == all.difference(points_of(out@)),
                coords@.len() + out@.len() == all.len(),
                forall|m: int|
                    0 <= m < j && all.contains(pt(#[trigger] nbrs@[m])) ==> out@.contains(nbrs@[m]),
            decreases nbrs@.len() - j,
        {
            let neighbor = nbrs[j];
            let ghost held = coords@;
            let ghost so_far = out@;
            if set_take(coords, (neighbor.x, neighbor.y)) {
                out.push(neighbor);
                proof {
                    assert(!so_far.contains(neighbor)) by {
                        assert(held.contains(pt(neighbor)));
                        assert(!points_of(so_far).contains(pt(neighbor)));
                        assert(co(pt(neighbor)) == neighbor);
                    }
                    assert forall|k: int| 0 <= k < so_far.len() implies out@[k] == so_far[k] by {}
                    assert(out@.no_duplicates()) by {
                        assert forall|a: int, b: int|
                            0 <= a < out@.len() && 0 <= b < out@.len() && a != b implies out@[a]
                            != out@[b] by {
                            if a < so_far.len() && b < so_far.len() {
                            } else if a < so_far.len() {
                                assert(so_far.contains(so_far[a]));
                            } else {
                                assert(so_far.contains(so_far[b]));
                            }
                        }
                    }
                    assert(linked(out@, radius)) by {
                        assert forall|k: int| 0 < k < out@.len() implies #[trigger] has_parent(
                            out@,
                            radius,
                            k,
                        ) by {
                            if k < so_far.len() {
                                assert(has_parent(so_far, radius, k));
                                let j2 = choose|j2: int|
                                    0 <= j2 < k && adjacent(
                                        pt(#[trigger] so_far[j2]),
                                        pt(so_far[k]),
                                        radius,
                                    );
                                assert(out@[j2] == so_far[j2]);
                                assert(out@[k] == so_far[k]);
                            } else {
                                assert(nbrs@.contains(neighbor)) by {
                                    assert(nbrs@[j as int] == neighbor);
                                }
                                assert(all.contains(pt(neighbor)));
                                lemma_neighbors_are_adjacent(coord, neighbor, radius);
                                assert(adjacent(pt(out@[i as int]), pt(out@[k]), radius));
                            }
                        }
                    }
                    assert(coords@ =~= all.difference(points_of(out@))) by {
                        assert forall|p: Point| coords@.contains(p) <==> all.contains(p)
                            && !points_of(out@).contains(p) by {
                            if out@.contains(co(p)) {
                                let k = choose|k: int| 0 <= k < out@.len() && out@[k] == co(p);
                                if k < so_far.len() {
                                    assert(so_far.contains(co(p)));
                                } else {
                                    assert(p == pt(neighbor));
                                }
                            }
                            if so_far.contains(co(p)) {
                                let k = choose|k: int| 0 <= k < so_far.len() && so_far[k] == co(p);
                                assert(out@[k] == co(p));
                            }
                            if p == pt(neighbor) {
                                assert(out@[so_far.len() as int] == co(p));
                            }
                            assert(held.contains(p) <==> all.contains(p) && !points_of(
                                so_far,
                            ).contains(p));
                        }
                    }
                    assert(out@.contains(neighbor)) by {
                        assert(out@[so_far.len() as int] == neighbor);
                    }
                }
            } else {
                proof {
                    assert(coords@ =~= held);
                    if all.contains(pt(neighbor)) {
                        assert(points_of(out@).contains(pt(neighbor)));
                        assert(co(pt(neighbor)) == neighbor);
                    }
                }
            }
            proof {
                assert forall|m: int|
                    0 <= m < j + 1 && all.contains(pt(#[trigger] nbrs@[m])) implies out@.contains(
                    nbrs@[m],
                ) by {
                    if m < j {
                        assert(so_far.contains(nbrs@[m]));
                        let k = choose|k: int| 0 <= k < so_far.len() && so_far[k] == nbrs@[m];
                        assert(out@[k] == nbrs@[m]);
                    }
                }
            }
            j += 1;
        }
        proof {
            assert forall|j2: int, p: Point|
                0 <= j2 < i + 1 && all.contains(p) && #[trigger] adjacent(
                    pt(out@[j2]),
                    p,
                    radius,
                ) implies out@.contains(co(p)) by {
                if j2 < i {
                    assert(out@[j2] == grown_from[j2]);
                    assert(grown_from.contains(co(p)));
                    let k = choose|k: int| 0 <= k < grown_from.len() && grown_from[k] == co(p);
                    assert(out@[k] == co(p));
                } else {
                    lemma_neighbors_are_adjacent(coord, co(p), radius);
                    assert(nbrs@.contains(co(p)));
                    let m = choose|m: int| 0 <= m < nbrs@.len() && nbrs@[m] == co(p);
                    assert(all.contains(pt(nbrs@[m])));
                }
            }
        }
        i += 1;
    }
    proof {
        let seed = pt(out@[0]);
        assert(points_of(out@) =~= component(all, radius, seed)) by {
            assert forall|p: Point| points_of(out@).contains(p) <==> component(
                all,
                radius,
                seed,
            ).contains(p) by {
                if out@.contains(co(p)) {
                    let k = choose|k: int| 0 <= k < out@.len() && out@[k] == co(p);
                    lemma_linked_is_reachable(all, radius, out@, k);
                }
                if reachable(all, radius, seed, p) {
                    let path = choose|path: Seq<Point>|
                        #[trigger] is_path(all, radius, path) && path[0] == seed && path.last()
                            == p;
                    lemma_closed_holds_path(all, radius, out@, path, path.len() - 1);
                }
            }
        }
    }
    Some(out)
}

/// The item of `items` that comes before every other as a seed.
fn nearest(
    items: &Vec<Point>,
    radius: u32,
    dims: (usize, usize),
    Ghost(all): Ghost<Set<Point>>,
) -> (best: Coord<
    usize,
>)
    requires
        items@.len() > 0,
        items@.to_set() == all,
        in_reach(all, radius, dims),
    ensures
        is_seed(all, dims, pt(best)),
{
    let ref_coord = Coord { x: dims.0 / 2, y: dims.1 / 2 };
    let mut init_coord = Coord { x: items[0].0, y: items[0].1 };
    proof {
        assert(items@.to_set().contains(items@[0]));
    }
    let mut closest_dist: i32 = init_coord.square_dist(ref_coord);
    let mut k: usize = 1;
    while k < items.len()
        invariant
            1 <= k <= items@.len(),
            items@.to_set() == all,
            in_reach(all, radius, dims),
            ref_coord.x == dims.0 / 2,
            ref_coord.y == dims.1 / 2,
            all.contains(pt(init_coord)),
            closest_dist == center_dist(pt(init_coord), dims),
            forall|m: int|
                0 <= m < k ==> #[trigger] items@[m] == pt(init_coord) || before(
                    pt(init_coord),
                    items@[m],
                    dims,
                ),
        decreases items@.len() - k,
    {
        let coord = Coord { x: items[k].0, y: items[k].1 };
        proof {
            assert(items@.to_set().contains(items@[k as int]));
        }
        let dist: i32 = coord.square_dist(ref_coord);
        if dist < closest_dist || (dist == closest_dist && (coord.y < init_coord.y || (coord.y
            == init_coord.y && coord.x < init_coord.x))) {
            init_coord = coord;
            closest_dist = dist;
        }
        k += 1;
    }
    proof {
        assert forall|q: Point| all.contains(q) && q != pt(init_coord) implies before(
            pt(init_coord),
            q,
            dims,
        ) by {
            let m = choose|m: int| 0 <= m < items@.len() && items@[m] == q;
            assert(items@[m] == q);
        }
    }
    init_coord
}

/// Inside a frame that fits, the squared distance of a pixel to the centre
/// fits a signed integer of thirty-two bits.
pub proof fn lemma_center_dist_fits(p: Point, dims: (usize, usize))
    requires
        p.0 < dims.0,
        p.1 < dims.1,
        frame_fits(dims),
    ensures
        0 <= center_dist(p, dims) <= i32::MAX,
{
    let a = (dims.0 / 2) as int;
    let b = (dims.1 / 2) as int;
    let dx = p.0 - a;
    let dy = p.1 - b;
    assert(0 <= dx * dx <= a * a) by (nonlinear_arith)
        requires
            -a <= dx <= a,
    ;
    assert(0 <= dy * dy <= b * b) by (nonlinear_arith)
        requires
            -b <= dy <= b,
    ;
}

/// `lo` and `hi` are the corners of the smallest box around the points of `s`.
pub open spec fn bounds(s: Set<Point>, lo: Point, hi: Point) -> bool {
    &&& forall|p: Point| #[trigger]
        s.contains(p) ==> lo.0 <= p.0 <= hi.0 && lo.1 <= p.1 <= hi.1
    &&& exists|p: Point| #[trigger] s.contains(p) && p.0 == lo.0
    &&& exists|p: Point| #[trigger] s.contains(p) && p.0 == hi.0
    &&& exists|p: Point| #[trigger] s.contains(p) && p.1 == lo.1
    &&& exists|p: Point| #[trigger] s.contains(p) && p.1 == hi.1
}

/// The area that a cluster is measured by: the number of positions in its
/// bounding box, which is as many columns wide and as many rows high as the
/// cluster reaches.
pub open spec fn box_area(s: Set<Point>) -> int {
    let b = choose|b: (Point, Point)| bounds(s, b.0, b.1);
    (b.1.0 - b.0.0 + 1) * (b.1.1 - b.0.1 + 1)
}

/// A set has one bounding box at most, so its area is that of any box found
/// for it.
pub proof fn lemma_box_area(s: Set<Point>, lo: Point, hi: Point)
    requires
        bounds(s, lo, hi),
    ensures
        box_area(s) == (hi.0 - lo.0 + 1) * (hi.1 - lo.1 + 1),
{
    let b = choose|b: (Point, Point)| bounds(s, b.0, b.1);
    assert(bounds(s, (lo, hi).0, (lo, hi).1));
    assert(bounds(s, b.0, b.1));
    assert(b.0.0 == lo.0 && b.0.1 == lo.1 && b.1.0 == hi.0 && b.1.1 == hi.1);
}

/// The bounding box of a cluster is that of its points.
pub proof fn lemma_bbox_bounds(cluster: Seq<Coord<usize>>, lo: Coord<usize>, hi: Coord<usize>)
    requires
        crate::coord::is_bbox(cluster, lo, hi),
    ensures
        bounds(points_of(cluster), pt(lo), pt(hi)),
{
    let s = points_of(cluster);
    assert forall|p: Point| #[trigger] s.contains(p) implies lo.x <= p.0 <= hi.x && lo.y <= p.1
        <= hi.y by {
        let k = choose|k: int| 0 <= k < cluster.len() && cluster[k] == co(p);
        assert(cluster[k] == co(p));
    }
    let i0 = choose|i: int| 0 <= i < cluster.len() && (#[trigger] cluster[i]).x == lo.x;
    let i1 = choose|i: int| 0 <= i < cluster.len() && (#[trigger] cluster[i]).x == hi.x;
    let i2 = choose|i: int| 0 <= i < cluster.len() && (#[trigger] cluster[i]).y == lo.y;
    let i3 = choose|i: int| 0 <= i < cluster.len() && (#[trigger] cluster[i]).y == hi.y;
    lemma_member_point(cluster, i0);
    lemma_member_point(cluster, i1);
    lemma_member_point(cluster, i2);
    lemma_member_point(cluster, i3);
}

/// The pair of a member of a cluster is one of the cluster's points.
pub proof fn lemma_member_point(cluster: Seq<Coord<usize>>, i: int)
    requires
        0 <= i < cluster.len(),
    ensures
        points_of(cluster).contains(pt(cluster[i])),
{
    assert(co(pt(cluster[i])) == cluster[i]);
    assert(cluster.contains(cluster[i]));
}

/// What is reached from a candidate holds that candidate, and only
/// candidates.
pub proof fn lemma_component_within(s: Set<Point>, radius: u32, seed: Point)
    ensures
        component(s, radius, seed).subset_of(s),
        s.contains(seed) ==> component(s, radius, seed).contains(seed),
{
    assert forall|p: Point| component(s, radius, seed).contains(p) implies s.contains(p) by {
        let path = choose|path: Seq<Point>|
            #[trigger] is_path(s, radius, path) && path[0] == seed && path.last() == p;
        assert(s.contains(path[path.len() - 1]));
    }
    if s.contains(seed) {
        let path = seq![seed];
        assert(is_path(s, radius, path));
        assert(path[0] == seed && path.last() == seed);
    }
}

/// The cluster that detection settles on among the candidates `s`, and the
/// candidates that are left once it is found: clusters are grown one after
/// the other, each from the seed of what the earlier ones left, and the first
/// whose box area exceeds `min_area` is the one. Where none does, there is no
/// cluster and no candidate is left.
pub open spec fn select(s: Set<Point>, radius: u32, dims: (usize, usize), min_area: int) -> (
    Option<Set<Point>>,
    Set<Point>,
)
    decreases s.len(),
    via select_decreases
{
    let seed = choose|p: Point| is_seed(s, dims, p);
    if s.finite() && is_seed(s, dims, seed) {
        let cluster = component(s, radius, seed);
        let rest = s.difference(cluster);
        if box_area(cluster) > min_area {
            (Some(cluster), rest)
        } else {
            select(rest, radius, dims, min_area)
        }
    } else {
        (None, s)
    }
}

#[via_fn]
proof fn select_decreases(s: Set<Point>, radius: u32, dims: (usize, usize), min_area: int) {
    let seed = choose|p: Point| is_seed(s, dims, p);
    if s.finite() && is_seed(s, dims, seed) {
        lemma_rest_is_smaller(s, radius, seed);
    }
}

/// Taking a cluster out of a finite set of candidates leaves fewer.
pub proof fn lemma_rest_is_smaller(s: Set<Point>, radius: u32, seed: Point)
    requires
        s.finite(),
        s.contains(seed),
    ensures
        s.difference(component(s, radius, seed)).len() < s.len(),
        s.difference(component(s, radius, seed)).finite(),
{
    let cluster = component(s, radius, seed);
    lemma_component_within(s, radius, seed);
    let rest = s.difference(cluster);
    assert(rest.subset_of(s.remove(seed)));
    vstd::set_lib::lemma_len_subset(rest, s.remove(seed));
}

/// The first cluster among `coords` whose box area exceeds `min_area`, with
/// every cluster tried on the way taken out of `coords`.
pub fn find_cluster(
    coords: &mut FxHashSet<Point>,
    radius: u32,
    dims: (usize, usize),
    min_area: usize,
) -> (out: Option<Vec<Coord<usize>>>)
    requires
        in_reach(old(coords)@, radius, dims),
    ensures
        final(coords)@ == select(old(coords)@, radius, dims, min_area as int).1,
        out is Some <==> select(old(coords)@, radius, dims, min_area as int).0 is Some,
        out matches Some(cluster) ==> {
            &&& select(old(coords)@, radius, dims, min_area as int).0 == Some(
                points_of(cluster@),
            )
            &&& cluster@.len() > 0
            &&& cluster@.no_duplicates()
            &&& linked(cluster@, radius)
            &&& points_of(cluster@).subset_of(old(coords)@)
            &&& box_area(points_of(cluster@)) > min_area
        },
{
    let ghost all = coords@;
    loop
        invariant
            all == old(coords)@,
            in_reach(coords@, radius, dims),
            coords@.subset_of(all),
            select(coords@, radius, dims, min_area as int) == select(
                all,
                radius,
                dims,
                min_area as int,
            ),
        decreases coords@.len(),
    {
        let ghost held = coords@;
        match take_any_cluster(coords, radius, dims) {
            Some(cluster) => {
                let (x, y, w, h) = Coord::bbox_xywh(cluster.as_slice());
                proof {
                    let seed = choose|p: Point| is_seed(held, dims, p);
                    lemma_seed_is_nearest(held, dims, pt(cluster@[0]), seed);
                    assert(seed == pt(cluster@[0]));
                    let lo = Coord { x, y };
                    let hi = Coord { x: (x + w) as usize, y: (y + h) as usize };
                    lemma_bbox_bounds(cluster@, lo, hi);
                    lemma_box_area(points_of(cluster@), pt(lo), pt(hi));
                    lemma_component_within(held, radius, seed);
                    assert(box_area(points_of(cluster@)) == (w + 1) * (h + 1));
                    assert(hi.x <= i32::MAX && hi.y <= i32::MAX) by {
                        let i1 = choose|i: int|
                            0 <= i < cluster@.len() && (#[trigger] cluster@[i]).x == hi.x;
                        let i3 = choose|i: int|
                            0 <= i < cluster@.len() && (#[trigger] cluster@[i]).y == hi.y;
                        lemma_member_point(cluster@, i1);
                        lemma_member_point(cluster@, i3);
                        assert(held.contains(pt(cluster@[i1])));
                        assert(held.contains(pt(cluster@[i3])));
                    }
                    assert((w + 1) * (h + 1) <= 0x8000_0000 * 0x8000_0000) by (nonlinear_arith)
                        requires
                            0 <= w < 0x8000_0000,
                            0 <= h < 0x8000_0000,
                    ;
                    assert(select(held, radius, dims, min_area as int) == if (w + 1) * (h + 1)
                        > min_area {
                        (Some(points_of(cluster@)), coords@)
                    } else {
                        select(coords@, radius, dims, min_area as int)
                    });
                }
                if (w as u64 + 1) * (h as u64 + 1) > min_area as u64 {
                    return Some(cluster);
                }
            },
            None => {
                proof {
                    assert(held =~= Set::<Point>::empty());
                    let seed = choose|p: Point| is_seed(held, dims, p);
                    assert(!is_seed(held, dims, seed));
                    assert(select(held, radius, dims, min_area as int) == (
                        None::<Set<Point>>,
                        held,
                    ));
                }
                return None;
            },
        }
    }
}

/// Among candidates that are not all the same, one comes before the other.
pub proof fn lemma_before_is_total(p: Point, q: Point, r: Point, dims: (usize, usize))
    ensures
        p != q ==> before(p, q, dims) || before(q, p, dims),
        !(before(p, q, dims) && before(q, p, dims)),
        before(p, q, dims) && before(q, r, dims) ==> before(p, r, dims),
{
}

/// A finite set of candidates that is not empty has a seed.
pub proof fn lemma_seed_exists(s: Set<Point>, dims: (usize, usize))
    requires
        s.finite(),
        !s.is_empty(),
    ensures
        exists|p: Point| is_seed(s, dims, p),
    decreases s.len(),
{
    let a = s.choose();
    assert(s.contains(a)) by {
        if !s.contains(a) {
            assert(s =~= Set::<Point>::empty());
        }
    }
    let rest = s.remove(a);
    if rest.is_empty() {
        assert forall|q: Point| s.contains(q) && q != a implies before(a, q, dims) by {
            assert(rest.contains(q));
            assert(rest =~= Set::<Point>::empty());
        }
        assert(is_seed(s, dims, a));
    } else {
        lemma_seed_exists(rest, dims);
        let b = choose|p: Point| is_seed(rest, dims, p);
        lemma_before_is_total(a, b, a, dims);
        if before(a, b, dims) {
            assert forall|q: Point| s.contains(q) && q != a implies before(a, q, dims) by {
                if q != b {
                    assert(rest.contains(q));
                    lemma_before_is_total(a, b, q, dims);
                }
            }
            assert(is_seed(s, dims, a));
        } else {
            assert forall|q: Point| s.contains(q) && q != b implies before(b, q, dims) by {
                if q != a {
                    assert(rest.contains(q));
                }
            }
            assert(is_seed(s, dims, b));
        }
    }
}

/// Where the cluster of the nearest candidate is large enough, it is the one
/// that detection settles on: of several clusters, the one whose nearest
/// pixel is nearest to the centre of the frame.
pub proof fn lemma_nearest_cluster_first(
    s: Set<Point>,
    radius: u32,
    dims: (usize, usize),
    min_area: int,
    p: Point,
)
    requires
        s.finite(),
        is_seed(s, dims, p),
        box_area(component(s, radius, p)) > min_area,
    ensures
        select(s, radius, dims, min_area).0 == Some(component(s, radius, p)),
        select(s, radius, dims, min_area).1 == s.difference(component(s, radius, p)),
{
    let seed = choose|q: Point| is_seed(s, dims, q);
    lemma_seed_is_nearest(s, dims, p, seed);
}

/// The positions from column `x0` to column `x1` in the rows from `y0` to
/// `y1`.
pub open spec fn block(x0: usize, y0: usize, x1: usize, y1: usize) -> Set<Point> {
    Set::new(|p: Point| x0 <= p.0 <= x1 && y0 <= p.1 <= y1)
}

/// Inside a block every position is reached from every other, one step at a
/// time along the row and then along the column.
pub proof fn lemma_block_connected(
    x0: usize,
    y0: usize,
    x1: usize,
    y1: usize,
    radius: u32,
    from: Point,
    to: Point,
)
    requires
        radius >= 1,
        block(x0, y0, x1, y1).contains(from),
        block(x0, y0, x1, y1).contains(to),
    ensures
        reachable(block(x0, y0, x1, y1), radius, from, to),
    decreases span(from, to) + span((from.0, to.1), to) + span((to.0, from.1), to),
{
    let s = block(x0, y0, x1, y1);
    if from == to {
        let path = seq![from];
        assert(is_path(s, radius, path));
        assert(path[0] == from && path.last() == to);
    } else {
        let near: Point = if to.0 > from.0 {
            ((to.0 - 1) as usize, to.1)
        } else if to.0 < from.0 {
            ((to.0 + 1) as usize, to.1)
        } else if to.1 > from.1 {
            (to.0, (to.1 - 1) as usize)
        } else {
            (to.0, (to.1 + 1) as usize)
        };
        assert(s.contains(near));
        lemma_block_connected(x0, y0, x1, y1, radius, from, near);
        let path = choose|path: Seq<Point>|
            #[trigger] is_path(s, radius, path) && path[0] == from && path.last() == near;
        let longer = path.push(to);
        assert(adjacent(near, to, radius));
        assert forall|i: int| 0 <= i < longer.len() implies s.contains(#[trigger] longer[i]) by {
            if i < path.len() {
                assert(longer[i] == path[i]);
            }
        }
        assert forall|i: int| 0 <= i < longer.len() - 1 implies adjacent(
            #[trigger] longer[i],
            longer[i + 1],
            radius,
        ) by {
            if i < path.len() - 1 {
                assert(longer[i] == path[i] && longer[i + 1] == path[i + 1]);
            }
        }
        assert(is_path(s, radius, longer));
        assert(longer[0] == from && longer.last() == to);
    }
}

/// Where the candidates are one solid block whose box is large enough,
/// detection settles on the whole block and on nothing else: the box of the
/// cluster is the block.
pub proof fn lemma_block_is_selected(
    s: Set<Point>,
    x0: usize,
    y0: usize,
    x1: usize,
    y1: usize,
    radius: u32,
    dims: (usize, usize),
    min_area: int,
)
    requires
        s == block(x0, y0, x1, y1),
        s.finite(),
        x0 <= x1,
        y0 <= y1,
        radius >= 1,
        (x1 - x0 + 1) * (y1 - y0 + 1) > min_area,
    ensures
        select(s, radius, dims, min_area).0 == Some(s),
        bounds(s, (x0, y0), (x1, y1)),
        box_area(s) == (x1 - x0 + 1) * (y1 - y0 + 1),
{
    assert(s.contains((x0, y0)));
    assert(s.contains((x1, y1)));
    assert(bounds(s, (x0, y0), (x1, y1)));
    lemma_box_area(s, (x0, y0), (x1, y1));
    assert(!s.is_empty()) by {
        if s.is_empty() {
            assert(s =~= Set::<Point>::empty());
        }
    }
    lemma_seed_exists(s, dims);
    let seed = choose|p: Point| is_seed(s, dims, p);
    let cluster = component(s, radius, seed);
    lemma_component_within(s, radius, seed);
    assert(cluster =~= s) by {
        assert forall|p: Point| s.contains(p) implies cluster.contains(p) by {
            lemma_block_connected(x0, y0, x1, y1, radius, seed, p);
        }
    }
    lemma_nearest_cluster_first(s, radius, dims, min_area, seed);
}

/// Growth from any position of a solid block takes the whole block and
/// nothing else: the cluster holds every position of the block, its box is
/// the block, and no candidate is left.
pub proof fn lemma_block_is_one_cluster(
    x0: usize,
    y0: usize,
    x1: usize,
    y1: usize,
    radius: u32,
    cluster: Seq<Coord<usize>>,
)
    requires
        radius >= 1,
        cluster.len() > 0,
        block(x0, y0, x1, y1).contains(pt(cluster[0])),
        points_of(cluster) == component(block(x0, y0, x1, y1), radius, pt(cluster[0])),
    ensures
        points_of(cluster) == block(x0, y0, x1, y1),
        block(x0, y0, x1, y1).difference(points_of(cluster)) == Set::<Point>::empty(),
        crate::coord::is_bbox(cluster, Coord { x: x0, y: y0 }, Coord { x: x1, y: y1 }),
{
    let s = block(x0, y0, x1, y1);
    let seed = pt(cluster[0]);
    lemma_component_within(s, radius, seed);
    assert(points_of(cluster) =~= s) by {
        assert forall|p: Point| s.contains(p) implies points_of(cluster).contains(p) by {
            lemma_block_connected(x0, y0, x1, y1, radius, seed, p);
        }
    }
    assert(s.difference(points_of(cluster)) =~= Set::<Point>::empty());
    assert forall|i: int| 0 <= i < cluster.len() implies x0 <= (#[trigger] cluster[i]).x <= x1
        && y0 <= cluster[i].y <= y1 by {
        lemma_member_point(cluster, i);
    }
    assert(s.contains((x0, y0)) && s.contains((x1, y1)));
    let lo = choose|i: int| 0 <= i < cluster.len() && cluster[i] == co((x0, y0));
    let hi = choose|i: int| 0 <= i < cluster.len() && cluster[i] == co((x1, y1));
    assert(points_of(cluster).contains((x0, y0)) && points_of(cluster).contains((x1, y1)));
    assert(cluster[lo].x == x0 && cluster[lo].y == y0);
    assert(cluster[hi].x == x1 && cluster[hi].y == y1);
}

} // verus!
