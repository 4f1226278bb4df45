use pixel_bot::coord::Coord;

#[test]
fn new_keeps_both_coordinates() {
    let c = Coord::new(3usize, 7usize);
    assert_eq!(c.x, 3);
    assert_eq!(c.y, 7);
    assert_eq!(c, Coord { x: 3, y: 7 });
}

#[test]
fn add_and_sub_are_componentwise() {
    let a = Coord::new(10usize, 20usize);
    let b = Coord::new(1usize, 2usize);
    assert_eq!(a.add(b), Coord::new(11, 22));
    assert_eq!(a.sub(b), Coord::new(9, 18));
    let p = Coord::new(-5i32, 4i32);
    let q = Coord::new(3i32, -9i32);
    assert_eq!(p.add(q), Coord::new(-2, -5));
    assert_eq!(p.sub(q), Coord::new(-8, 13));
}

#[test]
fn add_assign_and_sub_assign_change_in_place() {
    let mut a = Coord::new(10usize, 20usize);
    a.add_assign(Coord::new(5, 6));
    assert_eq!(a, Coord::new(15, 26));
    a.sub_assign(Coord::new(15, 20));
    assert_eq!(a, Coord::new(0, 6));
    let mut p = Coord::new(1i32, 1i32);
    p.sub_assign(Coord::new(2, 3));
    assert_eq!(p, Coord::new(-1, -2));
    p.add_assign(Coord::new(1, 2));
    assert_eq!(p, Coord::new(0, 0));
}

#[test]
fn square_dist_of_a_3_4_step_is_25() {
    let a = Coord::new(10usize, 10usize);
    let b = Coord::new(13usize, 6usize);
    assert_eq!(a.square_dist(b), 25);
    assert_eq!(b.square_dist(a), 25);
    assert_eq!(a.square_dist(a), 0);
}

#[test]
fn square_dist_across_a_large_frame_fits() {
    let a = Coord::new(0usize, 0usize);
    let b = Coord::new(32767usize, 32767usize);
    assert_eq!(a.square_dist(b), 2 * 32767 * 32767);
}

#[test]
fn bbox_is_the_least_and_greatest_on_each_axis() {
    let cluster = vec![Coord::new(5usize, 9usize), Coord::new(2, 12), Coord::new(8, 10)];
    let (lo, hi) = Coord::bbox(&cluster[..]);
    assert_eq!(lo, Coord::new(2, 9));
    assert_eq!(hi, Coord::new(8, 12));
    assert_eq!(Coord::bbox_xywh(&cluster[..]), (2, 9, 6, 3));
}

#[test]
fn bbox_of_one_point_has_no_extent() {
    let cluster = vec![Coord::new(4usize, 4usize)];
    assert_eq!(Coord::bbox(&cluster[..]), (Coord::new(4, 4), Coord::new(4, 4)));
    assert_eq!(Coord::bbox_xywh(&cluster[..]), (4, 4, 0, 0));
}

#[test]
fn bbox_of_nothing_is_inside_out() {
    let cluster: Vec<Coord<usize>> = Vec::new();
    let (lo, hi) = Coord::bbox(&cluster[..]);
    assert_eq!(lo, Coord::new(usize::MAX, usize::MAX));
    assert_eq!(hi, Coord::new(0, 0));
}
