use pixel_bot::coord::Coord;
use pixel_bot::gui::clamp;
use pixel_bot::gui::Bounds;
use pixel_bot::image::zeroed;
use pixel_bot::image::Color;
use pixel_bot::image::Image;
use pixel_bot::image::PixelOrder;
use pixel_bot::logging::drain_log;
use pixel_bot::logging::log__;
use pixel_bot::logging::log_err__;
use pixel_bot::logging::style_string;
use pixel_bot::logging::FAKE_ANSI;

const INK: Color<u8> = Color { r: 9, g: 8, b: 7, a: 255 };

fn inked(img: &Image) -> Vec<(usize, usize)> {
    let mut out = Vec::new();
    for y in 0..img.h {
        for x in 0..img.w {
            if img.get_pixel2d(Coord::new(x, y)) == INK {
                out.push((x, y));
            }
        }
    }
    out
}

#[test]
fn plot_sets_the_points_given() {
    let mut img = zeroed(PixelOrder::RGBA, 4, 3);
    img.plot(&[(0, 0), (3, 2), (1, 1), (3, 2)], INK);
    assert_eq!(inked(&img), vec![(0, 0), (1, 1), (3, 2)]);
    img.plot(&[], INK);
    assert_eq!(inked(&img), vec![(0, 0), (1, 1), (3, 2)]);
}

#[test]
fn draw_line_goes_through_the_points_of_the_line() {
    let mut img = zeroed(PixelOrder::RGBA, 8, 8);
    img.draw_line(Coord::new(0, 0), Coord::new(5, 6), INK);
    assert_eq!(inked(&img), vec![(0, 0), (0, 1), (1, 2), (2, 3), (3, 4), (4, 5), (5, 6)]);
}

#[test]
fn draw_line_includes_both_ends_whichever_way_it_runs() {
    let mut img = zeroed(PixelOrder::BGRA, 8, 8);
    img.draw_line(Coord::new(6, 2), Coord::new(1, 2), INK);
    assert_eq!(inked(&img), vec![(1, 2), (2, 2), (3, 2), (4, 2), (5, 2), (6, 2)]);
    let mut dot = zeroed(PixelOrder::BGRA, 8, 8);
    dot.draw_line(Coord::new(3, 3), Coord::new(3, 3), INK);
    assert_eq!(inked(&dot), vec![(3, 3)]);
}

#[test]
fn try_draw_line_leaves_the_image_alone_when_the_line_leaves_it() {
    let mut img = zeroed(PixelOrder::RGBA, 8, 8);
    assert!(!img.line_fits(Coord::new(0, 0), Coord::new(5, 8)));
    assert!(!img.try_draw_line(Coord::new(0, 0), Coord::new(5, 8), INK));
    assert!(inked(&img).is_empty());
    assert!(img.line_fits(Coord::new(0, 7), Coord::new(7, 0)));
    assert!(img.try_draw_line(Coord::new(0, 7), Coord::new(7, 0), INK));
    assert_eq!(inked(&img).len(), 8);
}

#[test]
fn draw_bbox_draws_four_sides() {
    let mut img = zeroed(PixelOrder::RGBA, 6, 5);
    img.draw_bbox(Coord::new(1, 1), 3, 2, INK);
    let want = vec![
        (1, 1), (2, 1), (3, 1), (4, 1),
        (1, 2), (4, 2),
        (1, 3), (2, 3), (3, 3), (4, 3),
    ];
    assert_eq!(inked(&img), want);
}

#[test]
fn try_draw_bbox_draws_all_or_nothing() {
    let mut img = zeroed(PixelOrder::RGBA, 6, 5);
    assert!(!img.try_draw_bbox(Coord::new(1, 1), 3, 4, INK));
    assert!(inked(&img).is_empty());
    assert!(img.try_draw_bbox(Coord::new(0, 0), 5, 4, INK));
    assert_eq!(inked(&img).len(), 18);
}

#[test]
fn draw_crosshair_is_cut_at_the_edges() {
    let mut img = zeroed(PixelOrder::RGBA, 7, 6);
    img.draw_crosshair(Coord::new(1, 4), 2, INK);
    let want = vec![(1, 2), (1, 3), (0, 4), (1, 4), (2, 4), (3, 4), (1, 5)];
    assert_eq!(inked(&img), want);
    let mut dot = zeroed(PixelOrder::RGBA, 7, 6);
    dot.draw_crosshair(Coord::new(3, 3), 0, INK);
    assert_eq!(inked(&dot), vec![(3, 3)]);
    let mut all = zeroed(PixelOrder::RGBA, 3, 3);
    all.draw_crosshair(Coord::new(1, 1), usize::MAX, INK);
    assert_eq!(inked(&all), vec![(1, 0), (0, 1), (1, 1), (2, 1), (1, 2)]);
}

#[test]
fn draw_grid_draws_a_line_after_every_step() {
    let mut img = zeroed(PixelOrder::RGBA, 7, 4);
    img.draw_grid(2, INK);
    let mut want = Vec::new();
    for y in 0..4usize {
        for x in 0..7usize {
            if x % 3 == 2 || y % 3 == 2 {
                want.push((x, y));
            }
        }
    }
    assert_eq!(inked(&img), want);
    let mut full = zeroed(PixelOrder::RGBA, 3, 2);
    full.draw_grid(0, INK);
    assert_eq!(inked(&full).len(), 6);
    let mut none = zeroed(PixelOrder::RGBA, 3, 2);
    none.draw_grid(u32::MAX, INK);
    assert!(inked(&none).is_empty());
}

#[test]
fn bounds_are_drawn_in_by_the_gap() {
    let b = Bounds::new(10, 20, 100, 50);
    assert_eq!(b.gapify(5), Bounds { x: 15, y: 25, w: 90, h: 40 });
    assert_eq!(b.gapify(0), b);
    assert_eq!(b.gapify(-5), Bounds { x: 5, y: 15, w: 110, h: 60 });
}

#[test]
fn clamp_holds_a_value_between_two_others() {
    assert_eq!(clamp(5, 1, 12), 5);
    assert_eq!(clamp(0, 1, 12), 1);
    assert_eq!(clamp(13, 1, 12), 12);
    assert_eq!(clamp(1, 1, 12), 1);
    assert_eq!(clamp(12, 1, 12), 12);
    // with the ends the wrong way round the lower end wins below it
    assert_eq!(clamp(0, 5, 3), 5);
    assert_eq!(clamp(9, 5, 3), 3);
}

#[test]
fn log_lines_are_added_and_drained() {
    let mut buf = String::new();
    log__(&mut buf, "Starting");
    log_err__(&mut buf, "Bad value");
    log__(&mut buf, "");
    assert_eq!(buf, "Starting\n\x1bBad value\x1b\n\n");
    let taken = drain_log(&mut buf);
    assert_eq!(taken, "Starting\n\x1bBad value\x1b\n\n");
    assert_eq!(buf, "");
    assert_eq!(drain_log(&mut buf), "");
    assert_eq!(FAKE_ANSI, '\x1b');
}

#[test]
fn styles_follow_the_marks() {
    assert_eq!(style_string("ab\n\x1bcd\x1b\ne"), "AAABBAA");
    assert_eq!(style_string(""), "");
    assert_eq!(style_string("\x1b\x1b"), "");
    assert_eq!(style_string("\x1bé"), "B");
    assert_eq!(style_string("\x1b\x1b\x1bx"), "B");
}
