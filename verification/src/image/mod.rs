//! Pixel buffers: four 8-bit subpixels per pixel, in one of two channel
//! orders, laid out row by row.

use crate::coord::Coord;
use vstd::prelude::*;

pub mod blend;
pub mod draw;
pub mod image_ops;
pub mod scale;

verus! {

/// Subpixels per pixel.
pub const N_SUBPX: usize = 4;

/// One channel of one pixel.
pub type Subpx = u8;

/// The position of each channel inside a pixel.
#[derive(Debug, Clone, Copy, PartialEq, Eq, Structural)]
pub struct SubpxOrder {
    pub r: usize,
    pub g: usize,
    pub b: usize,
    pub a: usize,
}

/// The channel order of a buffer.
#[derive(Debug, Clone, Copy, PartialEq, Eq, Structural)]
pub enum PixelOrder {
    RGBA,
    BGRA,
}

impl PixelOrder {
    /// Where each channel sits in a pixel of this order.
    pub open spec fn offsets(self) -> SubpxOrder {
        match self {
            PixelOrder::RGBA => SubpxOrder { r: 0, g: 1, b: 2, a: 3 },
            PixelOrder::BGRA => SubpxOrder { r: 2, g: 1, b: 0, a: 3 },
        }
    }

    /// The positions of red, green and blue.
    pub fn rgb_ordering(&self) -> (o: (usize, usize, usize))
        ensures
            o.0 == self.offsets().r,
            o.1 == self.offsets().g,
            o.2 == self.offsets().b,
    {
        match *self {
            PixelOrder::RGBA => (0, 1, 2),
            PixelOrder::BGRA => (2, 1, 0),
        }
    }

    /// The positions of all four channels.
    pub fn subpx_order(&self) -> (o: SubpxOrder)
        ensures
            o == self.offsets(),
    {
        match *self {
            PixelOrder::RGBA => SubpxOrder { r: 0, g: 1, b: 2, a: 3 },
            PixelOrder::BGRA => SubpxOrder { r: 2, g: 1, b: 0, a: 3 },
        }
    }
}

/// A colour of four channels.
#[derive(Debug, Clone, Copy, PartialEq, PartialOrd)]
pub struct Color<T> {
    pub r: T,
    pub g: T,
    pub b: T,
    pub a: T,
}

impl<T: Copy> Color<T> {
    pub fn new(r: T, g: T, b: T, a: T) -> (c: Self)
        ensures
            c.r == r,
            c.g == g,
            c.b == b,
            c.a == a,
    {
        Self { r, g, b, a }
    }
}

/// An opaque colour: red, green and blue without alpha.
#[derive(Debug, Clone, Copy)]
pub struct Pixel {
    pub r: Subpx,
    pub g: Subpx,
    pub b: Subpx,
}

impl Pixel {
    pub fn new(r: Subpx, g: Subpx, b: Subpx) -> (p: Self)
        ensures
            p.r == r,
            p.g == g,
            p.b == b,
    {
        Self { r, g, b }
    }

    /// Reads a pixel from the first subpixels of `slice`, which are laid out
    /// in `pixel_order`.
    pub fn from_slice(slice: &[Subpx], pixel_order: PixelOrder) -> (p: Self)
        requires
            slice@.len() >= 3,
        ensures
            p.r == slice@[pixel_order.offsets().r as int],
            p.g == slice@[pixel_order.offsets().g as int],
            p.b == slice@[pixel_order.offsets().b as int],
    {
        let (r_idx, g_idx, b_idx) = pixel_order.rgb_ordering();
        Self::new(slice[r_idx], slice[g_idx], slice[b_idx])
    }

    /// The pixel as `0x00RRGGBB`.
    pub fn packed(&self) -> (p: u32)
        ensures
            p == self.r * 0x1_0000 + self.g * 0x100 + self.b,
    {
        let (r, g, b) = (self.r as u32, self.g as u32, self.b as u32);
        assert((r << 16) | (g << 8) | b == r * 0x1_0000 + g * 0x100 + b) by (bit_vector)
            requires
                r < 256,
                g < 256,
                b < 256,
        ;
        (r << 16) | (g << 8) | b
    }
}

/// The subpixel of channel position `c` of the pixel in column `x` of row
/// `y`, in a buffer of rows `w` pixels wide.
pub open spec fn subpx_at(buf: Seq<u8>, w: int, x: int, y: int, c: int) -> u8 {
    buf[(y * w + x) * 4 + c]
}

/// The colour of pixel `idx` of a buffer laid out in `order`.
pub open spec fn color_of(buf: Seq<u8>, order: PixelOrder, idx: int) -> Color<u8> {
    Color {
        r: buf[idx * 4 + order.offsets().r],
        g: buf[idx * 4 + order.offsets().g],
        b: buf[idx * 4 + order.offsets().b],
        a: buf[idx * 4 + order.offsets().a],
    }
}

/// The buffer `buf` with pixel `idx` set to `fill`.
pub open spec fn with_color(buf: Seq<u8>, order: PixelOrder, idx: int, fill: Color<u8>) -> Seq<
    u8,
> {
    buf.update(idx * 4 + order.offsets().r, fill.r).update(
        idx * 4 + order.offsets().g,
        fill.g,
    ).update(idx * 4 + order.offsets().b, fill.b).update(idx * 4 + order.offsets().a, fill.a)
}

/// The position of pixel `idx` in rows `width` pixels wide.
pub fn get_2d_idx(width: usize, idx: usize) -> (pos: Coord<usize>)
    requires
        width > 0,
    ensures
        pos.x == idx % width,
        pos.y == idx / width,
{
    let x = idx % width;
    let y = idx / width;
    Coord::new(x, y)
}

/// The index of the pixel in column `col` of row `row`, in rows `width`
/// pixels wide.
pub fn get_1d_idx(width: usize, row: usize, col: usize) -> (idx: usize)
    requires
        col + row * width <= usize::MAX,
    ensures
        idx == col + row * width,
{
    col + (row * width)
}

/// An image of `w` by `h` pixels over a buffer of its own.
#[derive(Debug)]
pub struct Image {
    pub buf: Vec<Subpx>,
    pub pixel_order: PixelOrder,
    pub w: usize,
    pub h: usize,
}

impl View for Image {
    type V = Seq<u8>;

    /// The subpixels, row by row.
    open spec fn view(&self) -> Seq<u8> {
        self.buf@
    }
}

/// The buffer `buf` of rows `w` pixels wide, with `row` in the place of row
/// `y`.
pub open spec fn with_row(buf: Seq<u8>, w: int, y: int, row: Seq<u8>) -> Seq<u8> {
    buf.subrange(0, y * (w * 4)) + row + buf.subrange((y + 1) * (w * 4), buf.len() as int)
}

impl Image {
    /// The channel order of the buffer.
    pub open spec fn order(&self) -> PixelOrder {
        self.pixel_order
    }

    /// The buffer holds exactly `w * h` pixels.
    pub open spec fn wf(&self) -> bool {
        &&& self@.len() == self.w * self.h * 4
        &&& self.w * self.h * 4 <= usize::MAX
    }

    /// The colour of pixel `idx`.
    pub open spec fn color_at(&self, idx: int) -> Color<u8> {
        color_of(self@, self.order(), idx)
    }

    /// Wraps `buf` as an image of `w` by `h` pixels.
    pub fn new(buf: Vec<Subpx>, pixel_order: PixelOrder, w: usize, h: usize) -> (img: Self)
        requires
            buf@.len() == w * h * 4,
        ensures
            img@ == buf@,
            img.order() == pixel_order,
            img.w == w,
            img.h == h,
            img.wf(),
    {
        let _len = buf.len();
        Self { buf, pixel_order, w, h }
    }

    /// The channel order of the buffer.
    pub fn pixel_order(&self) -> (o: PixelOrder)
        ensures
            o == self.order(),
    {
        self.pixel_order
    }

    /// The position of pixel `idx`.
    pub fn get_2d_idx(&self, idx: usize) -> (pos: Coord<usize>)
        requires
            self.w > 0,
        ensures
            pos.x == idx % self.w,
            pos.y == idx / self.w,
    {
        let x = idx % self.w;
        let y = idx / self.w;
        Coord::new(x, y)
    }

    /// The colour of pixel `pixel_idx`, counted row by row.
    pub fn get_pixel(&self, pixel_idx: usize) -> (c: Color<u8>)
        requires
            self.wf(),
            pixel_idx < self.w * self.h,
        ensures
            c == self.color_at(pixel_idx as int),
    {
        let buf_idx: usize = pixel_idx * N_SUBPX;
        let o = self.pixel_order.subpx_order();
        Color::new(
            self.buf[buf_idx + o.r],
            self.buf[buf_idx + o.g],
            self.buf[buf_idx + o.b],
            self.buf[buf_idx + o.a],
        )
    }

    /// The colour of the pixel at `pos`.
    pub fn get_pixel2d(&self, pos: Coord<usize>) -> (c: Color<u8>)
        requires
            self.wf(),
            pos.x + pos.y * self.w < self.w * self.h,
        ensures
            c == self.color_at(pos.x + pos.y * self.w),
    {
        let idx = get_1d_idx(self.w, pos.y, pos.x);
        self.get_pixel(idx)
    }

    /// The subpixels, row by row.
    pub fn as_slice(&self) -> (s: &[Subpx])
        ensures
            s@ == self@,
    {
        self.buf.as_slice()
    }

    /// Every subpixel in buffer order.
    pub fn iter(&self) -> (subpixels: Vec<Subpx>)
        ensures
            subpixels@ == self@,
    {
        self.buf.clone()
    }

    /// Every pixel without its alpha, row by row.
    pub fn pixels(&self) -> (pixels: Vec<Pixel>)
        requires
            self.wf(),
        ensures
            pixels@.len() == self.w * self.h,
            forall|i: int|
                0 <= i < pixels@.len() ==> {
                    &&& (#[trigger] pixels@[i]).r == self.color_at(i).r
                    &&& pixels@[i].g == self.color_at(i).g
                    &&& pixels@[i].b == self.color_at(i).b
                },
    {
        let n = self.buf.len() / N_SUBPX;
        let mut pixels: Vec<Pixel> = Vec::new();
        let mut i: usize = 0;
        while i < n
            invariant
                self.wf(),
                n == self.w * self.h,
                i <= n,
                pixels@.len() == i,
                forall|k: int|
                    0 <= k < i ==> {
                        &&& (#[trigger] pixels@[k]).r == self.color_at(k).r
                        &&& pixels@[k].g == self.color_at(k).g
                        &&& pixels@[k].b == self.color_at(k).b
                    },
            decreases n - i,
        {
            let px = Pixel::from_slice(
                vstd::slice::slice_subrange(self.buf.as_slice(), i * N_SUBPX, i * N_SUBPX + N_SUBPX),
                self.pixel_order,
            );
            pixels.push(px);
            i += 1;
        }
        pixels
    }

    /// The rows from top to bottom, each `w * 4` subpixels.
    pub fn rows(&self) -> (rows: Vec<Vec<Subpx>>)
        requires
            self.wf(),
            self.w > 0,
        ensures
            rows@.len() == self.h,
            forall|y: int|
                0 <= y < self.h ==> (#[trigger] rows@[y])@ == self@.subrange(
                    y * (self.w * 4),
                    (y + 1) * (self.w * 4),
                ),
    {
        let mut rows: Vec<Vec<Subpx>> = Vec::new();
        if self.h == 0 {
            return rows;
        }
        assert(self.w * 4 <= self.w * self.h * 4) by (nonlinear_arith)
            requires
                self.h >= 1,
        ;
        let row_len = self.w * N_SUBPX;
        let mut y: usize = 0;
        while y < self.h
            invariant
                self.wf(),
                row_len == self.w * 4,
                y <= self.h,
                rows@.len() == y,
                forall|k: int|
                    0 <= k < y ==> (#[trigger] rows@[k])@ == self@.subrange(
                        k * (self.w * 4),
                        (k + 1) * (self.w * 4),
                    ),
            decreases self.h - y,
        {
            assert((y + 1) * row_len <= self.h * row_len) by (nonlinear_arith)
                requires
                    y < self.h,
            ;
            assert(self.h * row_len == self.w * self.h * 4) by (nonlinear_arith)
                requires
                    row_len == self.w * 4,
            ;
            assert((y + 1) * row_len == y * row_len + row_len) by (nonlinear_arith);
            let row = vstd::slice::slice_to_vec(
                vstd::slice::slice_subrange(self.buf.as_slice(), y * row_len, y * row_len + row_len),
            );
            rows.push(row);
            y += 1;
        }
        rows
    }

    /// Sets pixel `pixel_idx` to `fill`.
    pub fn set(&mut self, pixel_idx: usize, fill: Color<u8>)
        requires
            old(self).wf(),
            pixel_idx < old(self).w * old(self).h,
        ensures
            final(self)@ == with_color(old(self)@, old(self).order(), pixel_idx as int, fill),
            final(self).order() == old(self).order(),
            final(self).w == old(self).w,
            final(self).h == old(self).h,
            final(self).wf(),
    {
        let buf_idx: usize = pixel_idx * N_SUBPX;
        let o = self.pixel_order.subpx_order();
        self.buf[buf_idx + o.r] = fill.r;
        self.buf[buf_idx + o.g] = fill.g;
        self.buf[buf_idx + o.b] = fill.b;
        self.buf[buf_idx + o.a] = fill.a;
    }

    /// Sets the pixel at `pos` to `fill`.
    pub fn set2d(&mut self, pos: Coord<usize>, fill: Color<u8>)
        requires
            old(self).wf(),
            pos.x + pos.y * old(self).w < old(self).w * old(self).h,
        ensures
            final(self)@ == with_color(
                old(self)@,
                old(self).order(),
                pos.x + pos.y * old(self).w,
                fill,
            ),
            final(self).order() == old(self).order(),
            final(self).w == old(self).w,
            final(self).h == old(self).h,
            final(self).wf(),
    {
        let idx = get_1d_idx(self.w, pos.y, pos.x);
        self.set(idx, fill);
    }

    /// Writes `row` over row `y`; every other row stays as it is.
    pub fn set_row(&mut self, y: usize, row: &[Subpx])
        requires
            old(self).wf(),
            y < old(self).h,
            row@.len() == old(self).w * 4,
        ensures
            final(self)@ == with_row(old(self)@, old(self).w as int, y as int, row@),
            final(self).order() == old(self).order(),
            final(self).w == old(self).w,
            final(self).h == old(self).h,
            final(self).wf(),
    {
        let row_len = row.len();
        assert((y + 1) * row_len <= self.h * row_len) by (nonlinear_arith)
            requires
                y < self.h,
        ;
        assert(self.h * row_len == self.w * self.h * 4) by (nonlinear_arith)
            requires
                row_len == self.w * 4,
        ;
        assert((y + 1) * row_len == y * row_len + row_len) by (nonlinear_arith);
        let start = y * row_len;
        let mut i: usize = 0;
        while i < row_len
            invariant
                row_len == row@.len(),
                start + row_len <= self.buf@.len(),
                start + row_len <= usize::MAX,
                self.buf@.len() == old(self).buf@.len(),
                self.pixel_order == old(self).pixel_order,
                self.w == old(self).w,
                self.h == old(self).h,
                i <= row_len,
                forall|k: int| 0 <= k < i ==> self.buf@[start + k] == row@[k],
                forall|k: int|
                    0 <= k < self.buf@.len() && !(start <= k < start + i) ==> self.buf@[k] == old(
                        self,
                    ).buf@[k],
            decreases row_len - i,
        {
            self.buf[start + i] = row[i];
            i += 1;
        }
        assert(self@ =~= with_row(old(self)@, old(self).w as int, y as int, row@));
    }

    /// Sets every subpixel to zero.
    pub fn fill_zeroes(&mut self)
        ensures
            final(self)@.len() == old(self)@.len(),
            forall|i: int| 0 <= i < final(self)@.len() ==> final(self)@[i] == 0,
            final(self).order() == old(self).order(),
            final(self).w == old(self).w,
            final(self).h == old(self).h,
    {
        let n = self.buf.len();
        let mut i: usize = 0;
        while i < n
            invariant
                n == self.buf@.len(),
                self.buf@.len() == old(self).buf@.len(),
                self.pixel_order == old(self).pixel_order,
                self.w == old(self).w,
                self.h == old(self).h,
                i <= n,
                forall|k: int| 0 <= k < i ==> self.buf@[k] == 0,
            decreases n - i,
        {
            self.buf[i] = 0;
            i += 1;
        }
    }

    /// Sets every pixel to `color`.
    pub fn fill_color(&mut self, color: Color<u8>)
        requires
            old(self).wf(),
        ensures
            final(self).wf(),
            forall|i: int|
                0 <= i < final(self).w * final(self).h ==> #[trigger] final(self).color_at(i)
                    == color,
            final(self).order() == old(self).order(),
            final(self).w == old(self).w,
            final(self).h == old(self).h,
    {
        let n = self.buf.len() / N_SUBPX;
        let mut i: usize = 0;
        while i < n
            invariant
                self.wf(),
                n == self.w * self.h,
                self.order() == old(self).order(),
                self.w == old(self).w,
                self.h == old(self).h,
                i <= n,
                forall|k: int| 0 <= k < i ==> #[trigger] self.color_at(k) == color,
            decreases n - i,
        {
            let ghost before = *self;
            self.set(i, color);
            assert forall|k: int| 0 <= k < i + 1 implies #[trigger] self.color_at(k) == color by {
                if k < i {
                    assert(before.color_at(k) == color);
                }
            }
            i += 1;
        }
    }

    /// A copy with a buffer of its own.
    #[must_use]
    pub fn _clone(&self) -> (copy: Self)
        requires
            self.wf(),
        ensures
            copy@ == self@,
            copy.order() == self.order(),
            copy.w == self.w,
            copy.h == self.h,
            copy.wf(),
    {
        Self::new(self.buf.clone(), self.pixel_order, self.w, self.h)
    }
}

/// An image of `w` by `h` pixels, every subpixel zero.
pub fn zeroed(pixel_order: PixelOrder, w: usize, h: usize) -> (img: Image)
    requires
        w * h * 4 <= usize::MAX,
    ensures
        img.wf(),
        img.w == w,
        img.h == h,
        img.order() == pixel_order,
        forall|i: int| 0 <= i < img@.len() ==> img@[i] == 0,
{
    assert(w * h <= w * h * 4) by (nonlinear_arith);
    let n: usize = w * h * N_SUBPX;
    let mut buf: Vec<Subpx> = Vec::new();
    let mut i: usize = 0;
    while i < n
        invariant
            i <= n,
            buf@.len() == i,
            forall|k: int| 0 <= k < i ==> buf@[k] == 0,
        decreases n - i,
    {
        buf.push(0);
        i += 1;
    }
    Image::new(buf, pixel_order, w, h)
}

} // verus!
