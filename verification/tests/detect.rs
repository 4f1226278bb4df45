use pixel_bot::aim::aim_point;
use pixel_bot::aim::aim_vector;
use pixel_bot::aim::can_detect;
use pixel_bot::aim::centroid;
use pixel_bot::aim::collect_candidates;
use pixel_bot::aim::detect;
use pixel_bot::aim::locate;
use pixel_bot::aim::min_area;
use pixel_bot::aim::scale_axis;
use pixel_bot::cluster::coord_neighbors;
use pixel_bot::cluster::find_cluster;
use pixel_bot::cluster::fits;
use pixel_bot::cluster::take_any_cluster;
use pixel_bot::coord::Coord;
use pixel_bot::image::image_ops::color_distance_sq;
use pixel_bot::image::image_ops::similar;
use pixel_bot::image::image_ops::threshold_is_valid;
use pixel_bot::image::zeroed;
use pixel_bot::image::Color;
use pixel_bot::image::Image;
use pixel_bot::image::Pixel;
use pixel_bot::image::PixelOrder;
use pixel_bot::img_funcs::color_range_avg_pos;
use rustc_hash::FxHashSet;

const TARGET: Color<u8> = Color { r: 196, g: 58, b: 172, a: 255 };

fn frame_with_blocks(w: usize, h: usize, blocks: &[(usize, usize, usize, usize)]) -> Image {
    let mut img = zeroed(PixelOrder::BGRA, w, h);
    for &(x0, y0, x1, y1) in blocks {
        for y in y0..=y1 {
            for x in x0..=x1 {
                img.set2d(Coord::new(x, y), TARGET);
            }
        }
    }
    img
}

fn sorted(mut v: Vec<Coord<usize>>) -> Vec<(usize, usize)> {
    let mut out: Vec<(usize, usize)> = v.drain(..).map(|c| (c.y, c.x)).collect();
    out.sort();
    out
}

fn block_points(x0: usize, y0: usize, x1: usize, y1: usize) -> Vec<(usize, usize)> {
    let mut out = Vec::new();
    for y in y0..=y1 {
        for x in x0..=x1 {
            out.push((y, x));
        }
    }
    out
}

#[test]
fn colour_distance_weighs_green_most() {
    let a = Color::new(100u8, 100, 100, 0);
    // rmean 100: red weighs 612 / 256, green 4, blue 667 / 256
    assert_eq!(color_distance_sq(a, Color::new(110, 100, 100, 0)), (617 * 100) / 256);
    assert_eq!(color_distance_sq(a, Color::new(100, 110, 100, 0)), 400);
    assert_eq!(color_distance_sq(a, Color::new(100, 100, 110, 0)), (667 * 100) / 256);
    assert_eq!(color_distance_sq(a, a), 0);
    assert_eq!(
        color_distance_sq(Color::new(0, 0, 0, 0), Color::new(255, 255, 255, 255)),
        (639 * 65025) / 256 + 4 * 65025 + (640 * 65025) / 256
    );
}

#[test]
fn colour_distance_ignores_alpha_and_order_of_arguments() {
    let a = Color::new(12u8, 200, 77, 1);
    let b = Color::new(99u8, 3, 180, 250);
    assert_eq!(color_distance_sq(a, b), color_distance_sq(b, a));
    assert_eq!(
        color_distance_sq(a, b),
        color_distance_sq(Color::new(12, 200, 77, 255), Color::new(99, 3, 180, 0))
    );
}

#[test]
fn similarity_compares_the_distance_with_the_threshold() {
    let target = Color::new(100u8, 100, 100, 255);
    // distance squared 400: distance 20, similarity 1 - 20 / 765 = 0.97385...
    let near = Color::new(100u8, 110, 100, 255);
    assert!(similar(near, target, 973));
    assert!(!similar(near, target, 974));
    assert!(similar(target, target, 999));
    assert!(!similar(Color::new(0, 0, 0, 0), Color::new(255, 255, 255, 0), 1));
}

#[test]
fn thresholds_outside_nought_and_one_are_not_valid() {
    assert!(!threshold_is_valid(0));
    assert!(threshold_is_valid(1));
    assert!(threshold_is_valid(830));
    assert!(threshold_is_valid(999));
    assert!(!threshold_is_valid(1000));
    assert!(!threshold_is_valid(5000));
}

#[test]
fn detect_color_lists_matches_row_by_row() {
    let img = frame_with_blocks(40, 30, &[(3, 2, 12, 7)]);
    let found = img.detect_color(TARGET, 830).unwrap();
    assert_eq!(found.len(), 60);
    assert_eq!(found[0], Coord::new(3, 2));
    assert_eq!(found[9], Coord::new(12, 2));
    assert_eq!(found[10], Coord::new(3, 3));
    assert_eq!(found[59], Coord::new(12, 7));
}

#[test]
fn detect_color_drops_what_is_no_more_than_noise() {
    // fifty matching pixels are noise, fifty-one are not
    let fifty = frame_with_blocks(40, 30, &[(0, 0, 9, 4)]);
    assert!(fifty.detect_color(TARGET, 830).is_none());
    let mut more = frame_with_blocks(40, 30, &[(0, 0, 9, 4)]);
    more.set2d(Coord::new(20, 20), TARGET);
    assert_eq!(more.detect_color(TARGET, 830).unwrap().len(), 51);
}

#[test]
fn frame_without_a_match_gives_no_cluster() {
    let img = zeroed(PixelOrder::BGRA, 64, 48);
    assert!(img.detect_color(TARGET, 830).is_none());
    assert!(locate(&img, TARGET, 830).is_none());
    let frame = zeroed(PixelOrder::BGRA, 100, 80);
    assert!(detect(&frame, 10, 10, TARGET, 830).is_none());
}

#[test]
fn neighbours_are_eight_for_each_distance() {
    let n = coord_neighbors(Coord::new(10, 20), 2);
    let expect = vec![
        Coord::new(9, 19),
        Coord::new(10, 19),
        Coord::new(11, 19),
        Coord::new(10, 21),
        Coord::new(11, 20),
        Coord::new(9, 20),
        Coord::new(9, 21),
        Coord::new(11, 21),
        Coord::new(8, 18),
        Coord::new(10, 18),
        Coord::new(12, 18),
        Coord::new(10, 22),
        Coord::new(12, 20),
        Coord::new(8, 20),
        Coord::new(8, 22),
        Coord::new(12, 22),
    ];
    assert_eq!(n, expect);
    assert!(coord_neighbors(Coord::new(10, 20), 0).is_empty());
}

#[test]
fn neighbours_below_zero_wrap_round() {
    let n = coord_neighbors(Coord::new(0, 1), 1);
    assert_eq!(n[0], Coord::new(usize::MAX, 0));
    assert_eq!(n[1], Coord::new(0, 0));
    assert_eq!(n[5], Coord::new(usize::MAX, 1));
    let m = coord_neighbors(Coord::new(5, 0), 2);
    assert_eq!(m[9], Coord::new(5, usize::MAX - 1));
}

#[test]
fn collect_candidates_holds_each_position_once() {
    let coords = vec![Coord::new(1, 2), Coord::new(3, 4), Coord::new(1, 2)];
    let set = collect_candidates(&coords);
    assert_eq!(set.len(), 2);
    assert!(set.contains(&(1, 2)));
    assert!(set.contains(&(3, 4)));
    assert!(!set.contains(&(2, 1)));
}

#[test]
fn take_any_cluster_of_nothing_is_nothing() {
    let mut set: FxHashSet<(usize, usize)> = FxHashSet::default();
    assert!(take_any_cluster(&mut set, 2, (100, 100)).is_none());
    assert!(set.is_empty());
}

#[test]
fn take_any_cluster_grows_from_the_nearest_candidate() {
    let mut set: FxHashSet<(usize, usize)> = FxHashSet::default();
    // a chain near the centre of a 100 by 100 frame, linked by steps of one and two
    for p in [(50usize, 48usize), (51, 47), (53, 45), (53, 43)] {
        set.insert(p);
    }
    // out of reach of the chain: three away from its nearest member
    set.insert((56, 43));
    set.insert((10, 10));
    let cluster = take_any_cluster(&mut set, 2, (100, 100)).unwrap();
    assert_eq!(cluster[0], Coord::new(50, 48));
    assert_eq!(sorted(cluster), vec![(43, 53), (45, 53), (47, 51), (48, 50)]);
    assert_eq!(set.len(), 2);
    assert!(set.contains(&(56, 43)));
    assert!(set.contains(&(10, 10)));
}

#[test]
fn take_any_cluster_does_not_jump_a_knight_move() {
    let mut set: FxHashSet<(usize, usize)> = FxHashSet::default();
    set.insert((50, 50));
    set.insert((51, 52));
    let cluster = take_any_cluster(&mut set, 2, (100, 100)).unwrap();
    assert_eq!(cluster, vec![Coord::new(50, 50)]);
    assert_eq!(set.len(), 1);
    assert!(set.contains(&(51, 52)));
}

#[test]
fn seed_ties_go_to_the_higher_and_then_the_left_candidate() {
    // four candidates at the same distance from the centre (50, 50)
    let mut set: FxHashSet<(usize, usize)> = FxHashSet::default();
    for p in [(60usize, 50usize), (40, 50), (50, 60), (50, 40)] {
        set.insert(p);
    }
    let first = take_any_cluster(&mut set, 2, (100, 100)).unwrap();
    assert_eq!(first, vec![Coord::new(50, 40)]);
    let second = take_any_cluster(&mut set, 2, (100, 100)).unwrap();
    assert_eq!(second, vec![Coord::new(40, 50)]);
    let third = take_any_cluster(&mut set, 2, (100, 100)).unwrap();
    assert_eq!(third, vec![Coord::new(60, 50)]);
    let fourth = take_any_cluster(&mut set, 2, (100, 100)).unwrap();
    assert_eq!(fourth, vec![Coord::new(50, 60)]);
    assert!(take_any_cluster(&mut set, 2, (100, 100)).is_none());
}

#[test]
fn find_cluster_passes_over_what_is_too_small() {
    let mut set: FxHashSet<(usize, usize)> = FxHashSet::default();
    // a speck at the centre, and a block of four by four further out
    set.insert((50, 50));
    for y in 20..24usize {
        for x in 20..24usize {
            set.insert((x, y));
        }
    }
    // the box of the block holds sixteen positions, that of the speck one
    let cluster = find_cluster(&mut set, 2, (100, 100), 8).unwrap();
    assert_eq!(sorted(cluster), block_points(20, 20, 23, 23));
    assert!(set.is_empty());
}

#[test]
fn find_cluster_wants_the_area_exceeded() {
    let mut set: FxHashSet<(usize, usize)> = FxHashSet::default();
    for y in 20..24usize {
        for x in 20..24usize {
            set.insert((x, y));
        }
    }
    assert!(find_cluster(&mut set, 2, (100, 100), 16).is_none());
    assert!(set.is_empty());
    for y in 20..24usize {
        for x in 20..24usize {
            set.insert((x, y));
        }
    }
    assert_eq!(find_cluster(&mut set, 2, (100, 100), 15).unwrap().len(), 16);
}

#[test]
fn min_area_is_a_twentieth_of_each_side() {
    assert_eq!(min_area(200, 100), 50);
    assert_eq!(min_area(1152, 592), 57 * 29);
    assert_eq!(min_area(19, 400), 0);
}

#[test]
fn single_block_is_the_cluster() {
    // a crop of 200 by 100 wants an area above 50; the box of the block is 11 by 7
    let img = frame_with_blocks(200, 100, &[(90, 40, 101, 47)]);
    let cluster = locate(&img, TARGET, 830).unwrap();
    assert_eq!(Coord::bbox(&cluster[..]), (Coord::new(90, 40), Coord::new(101, 47)));
    assert_eq!(Coord::bbox_xywh(&cluster[..]), (90, 40, 11, 7));
    let c = centroid(&cluster[..]);
    assert_eq!(c, Coord::new(95, 43));
    assert_eq!(sorted(cluster), block_points(90, 40, 101, 47));
}

#[test]
fn blocks_that_are_too_small_are_no_cluster() {
    // two blocks of 30 pixels are more than noise together, but neither
    // exceeds the least area of 50
    let img = frame_with_blocks(200, 100, &[(90, 40, 95, 44), (150, 40, 155, 44)]);
    assert_eq!(img.detect_color(TARGET, 830).unwrap().len(), 60);
    assert!(locate(&img, TARGET, 830).is_none());
}

#[test]
fn block_is_measured_by_its_pixels() {
    // 8 by 7 pixels are 56, which exceeds 50, though 7 times 6 does not
    let img = frame_with_blocks(200, 100, &[(90, 40, 97, 46)]);
    let cluster = locate(&img, TARGET, 830).unwrap();
    assert_eq!(Coord::bbox(&cluster[..]), (Coord::new(90, 40), Coord::new(97, 46)));
    assert_eq!(sorted(cluster), block_points(90, 40, 97, 46));
    // 10 by 5 pixels are 50, which does not exceed 50, and are no more than noise
    let img = frame_with_blocks(200, 100, &[(90, 40, 99, 44)]);
    assert!(locate(&img, TARGET, 830).is_none());
    // 17 by 3 pixels are 51
    let img = frame_with_blocks(200, 100, &[(90, 40, 106, 42)]);
    assert_eq!(locate(&img, TARGET, 830).unwrap().len(), 51);
}

#[test]
fn clusters_grow_far_from_small_frames() {
    // positions beyond sixteen bits, as long as their squared distance to
    // the centre fits thirty-two
    let mut set: FxHashSet<(usize, usize)> = FxHashSet::default();
    for p in [(100_000usize, 100_000usize), (100_001, 100_001), (100_003, 100_001)] {
        set.insert(p);
    }
    let cluster = take_any_cluster(&mut set, 2, (200_000, 200_000)).unwrap();
    assert_eq!(cluster[0], Coord::new(100_000, 100_000));
    assert_eq!(cluster.len(), 3);
    assert!(set.is_empty());
    // nothing is asked of the frame where there are no candidates
    assert!(take_any_cluster(&mut set, u32::MAX, (usize::MAX, usize::MAX)).is_none());
}

#[test]
fn frames_wider_than_sixteen_bits_are_searched() {
    // half of 92680 squared is 2147395600, which fits thirty-two bits with
    // the square of half of three rows
    assert!(fits(92_680, 3));
    let img = frame_with_blocks(92_680, 3, &[(10, 0, 40, 2)]);
    assert_eq!(min_area(92_680, 3), 0);
    let cluster = locate(&img, TARGET, 830).unwrap();
    assert_eq!(cluster.len(), 93);
    assert_eq!(Coord::bbox(&cluster[..]), (Coord::new(10, 0), Coord::new(40, 2)));
    assert_eq!(sorted(cluster), block_points(10, 0, 40, 2));
    assert_eq!(min_area(92_680, 40), 4634 * 2);
}

#[test]
fn frames_fit_while_the_far_corner_is_in_reach_of_thirty_two_bits() {
    assert!(fits(0, 0));
    assert!(fits(0xFFFF, 0xFFFF));
    // 32768 squared twice is one more than thirty-two bits hold
    assert!(!fits(65_536, 65_536));
    assert!(fits(65_536, 65_535));
    // 46340 squared is 2147395600, and 296 squared 87616: together 2147483216
    assert!(fits(92_681, 593));
    // 297 squared is 88209: together 2147483809
    assert!(!fits(92_681, 594));
    assert!(!fits(92_682, 0));
    assert!(!fits(0, 92_682));
    assert!(!fits(usize::MAX, usize::MAX));
}

#[test]
fn detection_takes_no_threshold_outside_nought_and_one() {
    let img = frame_with_blocks(200, 100, &[(90, 40, 101, 47)]);
    assert!(can_detect(&img, 0, 0, 830));
    assert!(can_detect(&img, 99, 49, 1));
    assert!(can_detect(&img, 10, 10, 999));
    for thresh in [0u32, 1000, 1001, 830_000, u32::MAX] {
        for (cw, ch) in [(0usize, 0usize), (10, 10), (99, 49), (100, 50)] {
            assert!(!can_detect(&img, cw, ch, thresh));
        }
    }
    // nor a crop that leaves nothing
    assert!(!can_detect(&img, 100, 0, 830));
    assert!(!can_detect(&img, 0, 50, 830));
    assert!(!can_detect(&img, usize::MAX, usize::MAX, 830));
    // nor a frame that does not fit
    let wide = zeroed(PixelOrder::BGRA, 92_682, 1);
    assert!(!can_detect(&wide, 0, 0, 830));
    assert!(can_detect(&wide, 1, 0, 830));
}

#[test]
fn of_two_blocks_the_one_nearer_the_centre_is_taken() {
    // both blocks are 12 by 10; the centre of the 200 by 100 crop is (100, 50).
    // The left block ends at column 89, eleven short of the centre; the right
    // one starts at column 110, ten beyond it.
    let img = frame_with_blocks(200, 100, &[(78, 45, 89, 54), (110, 45, 121, 54)]);
    let cluster = locate(&img, TARGET, 830).unwrap();
    assert_eq!(cluster[0], Coord::new(110, 50));
    assert_eq!(sorted(cluster), block_points(110, 45, 121, 54));
}

#[test]
fn of_two_blocks_at_the_same_distance_the_tie_is_broken_the_same_way() {
    // mirror images about the centre column: the nearest pixels are (90, 50) and (110, 50)
    let img = frame_with_blocks(200, 100, &[(79, 45, 90, 54), (110, 45, 121, 54)]);
    for _ in 0..5 {
        let cluster = locate(&img, TARGET, 830).unwrap();
        assert_eq!(cluster[0], Coord::new(90, 50));
        assert_eq!(sorted(cluster), block_points(79, 45, 90, 54));
    }
}

#[test]
fn detect_crops_before_it_looks() {
    // the block lies in the margin that is cut off
    let mut frame = frame_with_blocks(300, 200, &[(5, 5, 30, 30)]);
    assert!(detect(&frame, 50, 50, TARGET, 830).is_none());
    for y in 90..=110usize {
        for x in 140..=160usize {
            frame.set2d(Coord::new(x, y), TARGET);
        }
    }
    let cluster = detect(&frame, 50, 50, TARGET, 830).unwrap();
    assert_eq!(Coord::bbox(&cluster[..]), (Coord::new(90, 40), Coord::new(110, 60)));
}

#[test]
fn centroid_is_the_mean_rounded_down() {
    let cluster = vec![Coord::new(1, 10), Coord::new(2, 10), Coord::new(4, 11)];
    assert_eq!(centroid(&cluster[..]), Coord::new(2, 10));
    assert_eq!(centroid(&[Coord::new(7usize, 9usize)][..]), Coord::new(7, 9));
}

#[test]
fn aim_point_multiplies_the_row() {
    let cluster = vec![Coord::new(10, 100), Coord::new(20, 102)];
    assert_eq!(aim_point(&cluster[..], 900), Coord::new(15, 90));
    assert_eq!(aim_point(&cluster[..], 1000), Coord::new(15, 101));
    assert_eq!(aim_point(&cluster[..], 0), Coord::new(15, 0));
    assert_eq!(aim_point(&cluster[..], 1999), Coord::new(15, 201));
}

#[test]
fn scale_axis_divides_towards_zero() {
    assert_eq!(scale_axis(10, 3000), 3);
    assert_eq!(scale_axis(-10, 3000), -3);
    assert_eq!(scale_axis(11, 1000), 11);
    assert_eq!(scale_axis(-11, 1000), -11);
    assert_eq!(scale_axis(7, 10000), 0);
    assert_eq!(scale_axis(-7, 10000), 0);
    assert_eq!(scale_axis(0, 1), 0);
    assert_eq!(scale_axis(5, 1500), 3);
}

#[test]
fn scale_axis_stays_inside_thirty_two_bits() {
    assert_eq!(scale_axis(i32::MAX, 1), i32::MAX);
    assert_eq!(scale_axis(i32::MIN, 1), i32::MIN);
    assert_eq!(scale_axis(i32::MIN, 1000), i32::MIN);
    assert_eq!(scale_axis(i32::MAX, 1000), i32::MAX);
    assert_eq!(scale_axis(3_000_000, 1), i32::MAX);
}

#[test]
fn aim_vector_points_from_the_centre_of_the_crop() {
    assert_eq!(aim_vector(Some(Coord::new(130, 20)), 200, 100, 3000), Coord::new(10, -10));
    assert_eq!(aim_vector(Some(Coord::new(100, 50)), 200, 100, 3000), Coord::new(0, 0));
    assert_eq!(aim_vector(Some(Coord::new(0, 0)), 201, 101, 1000), Coord::new(-100, -50));
    assert_eq!(aim_vector(None, 200, 100, 3000), Coord::new(0, 0));
}

#[test]
fn mean_position_of_all_matches() {
    let img = frame_with_blocks(200, 100, &[(10, 20, 19, 29)]);
    let target = Pixel::new(196, 58, 172);
    // a hundred matching pixels: mean column 14, mean row 24
    assert_eq!(color_range_avg_pos(&img, target, 830, 1000), Some(Coord::new(14, 24)));
    assert_eq!(color_range_avg_pos(&img, target, 830, 2000), Some(Coord::new(14, 12)));
    assert_eq!(color_range_avg_pos(&img, target, 830, 1100), Some(Coord::new(14, 21)));
    let few = frame_with_blocks(200, 100, &[(10, 20, 14, 29)]);
    assert_eq!(color_range_avg_pos(&few, target, 830, 1000), None);
}
