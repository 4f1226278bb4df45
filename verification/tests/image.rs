use pixel_bot::coord::Coord;
use pixel_bot::image::blend::over;
use pixel_bot::image::blend::under;
use pixel_bot::image::blend::BlendType;
use pixel_bot::image::get_1d_idx;
use pixel_bot::image::get_2d_idx;
use pixel_bot::image::zeroed;
use pixel_bot::image::Color;
use pixel_bot::image::Image;
use pixel_bot::image::Pixel;
use pixel_bot::image::PixelOrder;
use pixel_bot::image::SubpxOrder;
use pixel_bot::img_funcs;

fn gradient(order: PixelOrder, w: usize, h: usize) -> Image {
    let mut buf = Vec::new();
    for i in 0..w * h * 4 {
        buf.push((i % 251) as u8);
    }
    Image::new(buf, order, w, h)
}

#[test]
fn channel_orders_are_rgba_and_bgra() {
    assert_eq!(PixelOrder::RGBA.rgb_ordering(), (0, 1, 2));
    assert_eq!(PixelOrder::BGRA.rgb_ordering(), (2, 1, 0));
    assert_eq!(PixelOrder::RGBA.subpx_order(), SubpxOrder { r: 0, g: 1, b: 2, a: 3 });
    assert_eq!(PixelOrder::BGRA.subpx_order(), SubpxOrder { r: 2, g: 1, b: 0, a: 3 });
}

#[test]
fn pixel_from_slice_follows_the_order() {
    let bytes = [10u8, 20, 30, 40];
    let rgba = Pixel::from_slice(&bytes, PixelOrder::RGBA);
    assert_eq!((rgba.r, rgba.g, rgba.b), (10, 20, 30));
    let bgra = Pixel::from_slice(&bytes, PixelOrder::BGRA);
    assert_eq!((bgra.r, bgra.g, bgra.b), (30, 20, 10));
}

#[test]
fn pixel_packs_to_0rgb() {
    assert_eq!(Pixel::new(0x12, 0x34, 0x56).packed(), 0x0012_3456);
    assert_eq!(Pixel::new(255, 255, 255).packed(), 0x00FF_FFFF);
    assert_eq!(Pixel::new(0, 0, 0).packed(), 0);
}

#[test]
fn index_and_position_convert_both_ways() {
    assert_eq!(get_2d_idx(7, 23), Coord::new(2, 3));
    assert_eq!(get_1d_idx(7, 3, 2), 23);
    let img = gradient(PixelOrder::RGBA, 7, 5);
    assert_eq!(img.get_2d_idx(23), Coord::new(2, 3));
    assert_eq!(img.get_2d_idx(0), Coord::new(0, 0));
    assert_eq!(img.get_2d_idx(34), Coord::new(6, 4));
}

#[test]
fn get_pixel_reads_colours_by_order() {
    let rgba = gradient(PixelOrder::RGBA, 3, 2);
    assert_eq!(rgba.get_pixel(0), Color::new(0, 1, 2, 3));
    assert_eq!(rgba.get_pixel(4), Color::new(16, 17, 18, 19));
    assert_eq!(rgba.get_pixel2d(Coord::new(1, 1)), Color::new(16, 17, 18, 19));
    let bgra = gradient(PixelOrder::BGRA, 3, 2);
    assert_eq!(bgra.get_pixel(4), Color::new(18, 17, 16, 19));
    assert_eq!(bgra.pixel_order(), PixelOrder::BGRA);
}

#[test]
fn set_writes_colours_by_order() {
    let mut img = zeroed(PixelOrder::BGRA, 2, 2);
    img.set(1, Color::new(1, 2, 3, 4));
    assert_eq!(img.as_slice(), &[0, 0, 0, 0, 3, 2, 1, 4, 0, 0, 0, 0, 0, 0, 0, 0][..]);
    img.set2d(Coord::new(0, 1), Color::new(9, 8, 7, 6));
    assert_eq!(img.as_slice(), &[0, 0, 0, 0, 3, 2, 1, 4, 7, 8, 9, 6, 0, 0, 0, 0][..]);
    assert_eq!(img.get_pixel2d(Coord::new(0, 1)), Color::new(9, 8, 7, 6));
}

#[test]
fn set_row_writes_one_row_and_leaves_the_others() {
    let mut img = gradient(PixelOrder::RGBA, 2, 3);
    let before = img.as_slice().to_vec();
    img.set_row(1, &[101, 102, 103, 104, 105, 106, 107, 108]);
    let rows = img.rows();
    assert_eq!(rows[0], before[0..8].to_vec());
    assert_eq!(rows[1], vec![101, 102, 103, 104, 105, 106, 107, 108]);
    assert_eq!(rows[2], before[16..24].to_vec());
    assert_eq!((img.w, img.h), (2, 3));
    assert_eq!(img.pixel_order(), PixelOrder::RGBA);
    img.set_row(0, &[1; 8]);
    img.set_row(2, &[3; 8]);
    assert_eq!(
        img.as_slice(),
        &[1, 1, 1, 1, 1, 1, 1, 1, 101, 102, 103, 104, 105, 106, 107, 108, 3, 3, 3, 3, 3, 3, 3, 3][..]
    );
    assert_eq!(img.get_pixel2d(Coord::new(1, 1)), Color::new(105, 106, 107, 108));
    let mut thin = zeroed(PixelOrder::BGRA, 0, 2);
    thin.set_row(1, &[]);
    assert_eq!(thin.as_slice().len(), 0);
}

#[test]
fn fill_color_and_fill_zeroes_reach_every_pixel() {
    let mut img = gradient(PixelOrder::RGBA, 4, 3);
    img.fill_color(Color::new(5, 6, 7, 8));
    for i in 0..12 {
        assert_eq!(img.get_pixel(i), Color::new(5, 6, 7, 8));
    }
    img.fill_zeroes();
    assert!(img.as_slice().iter().all(|b| *b == 0));
    assert_eq!(img.as_slice().len(), 48);
}

#[test]
fn zeroed_image_is_all_zero() {
    let img = zeroed(PixelOrder::RGBA, 5, 4);
    assert_eq!((img.w, img.h), (5, 4));
    assert_eq!(img.as_slice().len(), 80);
    assert!(img.as_slice().iter().all(|b| *b == 0));
    let empty = zeroed(PixelOrder::RGBA, 0, 9);
    assert_eq!(empty.as_slice().len(), 0);
}

#[test]
fn pixels_rows_and_iter_hand_out_the_buffer() {
    let img = gradient(PixelOrder::BGRA, 3, 2);
    let pixels = img.pixels();
    assert_eq!(pixels.len(), 6);
    assert_eq!((pixels[0].r, pixels[0].g, pixels[0].b), (2, 1, 0));
    assert_eq!((pixels[5].r, pixels[5].g, pixels[5].b), (22, 21, 20));
    let rows = img.rows();
    assert_eq!(rows.len(), 2);
    assert_eq!(rows[0], (0u8..12).collect::<Vec<u8>>());
    assert_eq!(rows[1], (12u8..24).collect::<Vec<u8>>());
    assert_eq!(img.iter(), (0u8..24).collect::<Vec<u8>>());
    let copy = img._clone();
    assert_eq!(copy.as_slice(), img.as_slice());
    assert_eq!((copy.w, copy.h), (3, 2));
}

#[test]
fn crop_to_center_keeps_the_middle() {
    let img = gradient(PixelOrder::RGBA, 6, 5);
    let out = img.crop_to_center(2, 1);
    assert_eq!((out.w, out.h), (2, 3));
    for y in 0..3 {
        for x in 0..2 {
            assert_eq!(
                out.get_pixel2d(Coord::new(x, y)),
                img.get_pixel2d(Coord::new(x + 2, y + 1))
            );
        }
    }
    let same = img.crop_to_center(0, 0);
    assert_eq!(same.as_slice(), img.as_slice());
}

#[test]
fn free_crop_to_center_labels_the_result_bgra() {
    let img = gradient(PixelOrder::RGBA, 6, 5);
    let out = img_funcs::crop_to_center(&img, 1, 2);
    assert_eq!((out.w, out.h), (4, 1));
    assert_eq!(out.pixel_order(), PixelOrder::BGRA);
    assert_eq!(out.as_slice(), &img.as_slice()[(2 * 6 + 1) * 4..(2 * 6 + 5) * 4]);
}

#[test]
fn over_weighs_by_alpha_plus_one() {
    let fg = Color::new(200u8, 100, 50, 128);
    let bg = Color::new(0u8, 100, 250, 7);
    // (129 * f + 128 * b) >> 8
    assert_eq!(over(fg, bg), Color::new(100, 100, 150, 255));
    assert_eq!(under(bg, fg), Color::new(100, 100, 150, 255));
}

#[test]
fn over_with_opaque_and_clear_foreground() {
    let bg = Color::new(9u8, 99, 199, 0);
    let opaque = Color::new(10u8, 20, 30, 255);
    assert_eq!(over(opaque, bg), Color::new(10, 20, 30, 255));
    let clear = Color::new(10u8, 20, 30, 0);
    assert_eq!(over(clear, bg), Color::new(9, 99, 199, 255));
}

#[test]
fn blend_over_and_under_pixel_by_pixel() {
    let mut a = zeroed(PixelOrder::RGBA, 2, 1);
    a.set(0, Color::new(200, 100, 50, 128));
    a.set(1, Color::new(10, 20, 30, 255));
    let mut b = zeroed(PixelOrder::RGBA, 2, 1);
    b.set(0, Color::new(0, 100, 250, 7));
    b.set(1, Color::new(9, 99, 199, 0));
    let mut top = a._clone();
    top.blend(BlendType::Over, &b);
    assert_eq!(top.get_pixel(0), Color::new(100, 100, 150, 255));
    assert_eq!(top.get_pixel(1), Color::new(10, 20, 30, 255));
    let mut bottom = a._clone();
    bottom.blend(BlendType::Under, &b);
    assert_eq!(bottom.get_pixel(0), over(b.get_pixel(0), a.get_pixel(0)));
    assert_eq!(bottom.get_pixel(1), over(b.get_pixel(1), a.get_pixel(1)));
}

#[test]
fn scale_nearest_doubles_a_small_image() {
    let mut img = zeroed(PixelOrder::RGBA, 2, 2);
    img.set2d(Coord::new(0, 0), Color::new(1, 1, 1, 1));
    img.set2d(Coord::new(1, 0), Color::new(2, 2, 2, 2));
    img.set2d(Coord::new(0, 1), Color::new(3, 3, 3, 3));
    img.set2d(Coord::new(1, 1), Color::new(4, 4, 4, 4));
    let out = img.scale_nearest(4, 4);
    assert_eq!((out.w, out.h), (4, 4));
    // column x is taken from round(x * 2 / 4), no further than 1: 0, 1, 1, 1
    let expect = [[1u8, 2, 2, 2], [3, 4, 4, 4], [3, 4, 4, 4], [3, 4, 4, 4]];
    for y in 0..4 {
        for x in 0..4 {
            assert_eq!(out.get_pixel2d(Coord::new(x, y)).r, expect[y][x]);
        }
    }
}

#[test]
fn scale_keep_aspect_fills_the_tighter_side() {
    let img = gradient(PixelOrder::RGBA, 8, 4);
    let wide = img.scale_keep_aspect(4, 100);
    assert_eq!((wide.w, wide.h), (4, 2));
    let tall = img.scale_keep_aspect(100, 2);
    assert_eq!((tall.w, tall.h), (4, 2));
    let tiny = img.scale_keep_aspect(1, 1);
    assert_eq!((tiny.w, tiny.h), (1, 1));
}

#[test]
fn layer_image_over_centres_the_top_image() {
    let mut base = zeroed(PixelOrder::RGBA, 5, 4);
    let mut top = zeroed(PixelOrder::BGRA, 2, 2);
    top.fill_color(Color::new(1, 2, 3, 4));
    base.layer_image_over(&top);
    for y in 0..4 {
        for x in 0..5 {
            let inside = (1..3).contains(&x) && (1..3).contains(&y);
            let want = if inside { Color::new(1, 2, 3, 4) } else { Color::new(0, 0, 0, 0) };
            assert_eq!(base.get_pixel2d(Coord::new(x, y)), want);
        }
    }
}
