//! Alpha compositing of two colours.

use crate::image::Color;
use vstd::prelude::*;

verus! {

/// Which of two layers goes on top.
#[derive(Debug, Clone, Copy, PartialEq, Eq, Structural)]
pub enum BlendType {
    Over,
    Under,
}

/// One channel of `front` over `back`, `front` weighted by `alpha + 1` parts
/// of 257 and `back` by the rest, scaled down by 256.
pub open spec fn blend_channel(alpha: u8, front: u8, back: u8) -> int {
    ((alpha + 1) * front + (256 - alpha) * back) / 256
}

/// The weighted sum of two channels fits sixteen bits, and its 256th part
/// eight.
pub proof fn lemma_blend_channel_bounds(alpha: u8, front: u8, back: u8)
    ensures
        0 <= (alpha + 1) * front + (256 - alpha) * back <= 0xFFFF,
        0 <= blend_channel(alpha, front, back) <= 255,
{
    assert(0 <= (alpha + 1) * front <= (alpha + 1) * 255) by (nonlinear_arith)
        requires
            0 <= alpha,
            0 <= front <= 255,
    ;
    assert(0 <= (256 - alpha) * back <= (256 - alpha) * 255) by (nonlinear_arith)
        requires
            alpha <= 255,
            0 <= back <= 255,
    ;
}

fn over_channel(alpha: u8, front: u8, back: u8) -> (c: u8)
    ensures
        c == blend_channel(alpha, front, back),
{
    proof {
        lemma_blend_channel_bounds(alpha, front, back);
    }
    let a: u16 = alpha as u16 + 1;
    let inv: u16 = 256 - alpha as u16;
    assert(a * front >= 0 && inv * back >= 0) by (nonlinear_arith)
        requires
            a >= 0,
            inv >= 0,
            front >= 0,
            back >= 0,
    ;
    let sum: u16 = a * front as u16 + inv * back as u16;
    assert(sum >> 8 == sum / 256) by (bit_vector);
    (sum >> 8) as u8
}

/// `fg` composited over `bg` by the alpha of `fg`; the result is opaque.
pub fn over(fg: Color<u8>, bg: Color<u8>) -> (out: Color<u8>)
    ensures
        out.r == blend_channel(fg.a, fg.r, bg.r),
        out.g == blend_channel(fg.a, fg.g, bg.g),
        out.b == blend_channel(fg.a, fg.b, bg.b),
        out.a == 255,
{
    Color::new(
        over_channel(fg.a, fg.r, bg.r),
        over_channel(fg.a, fg.g, bg.g),
        over_channel(fg.a, fg.b, bg.b),
        255,
    )
}

/// `fg_px` composited under `bg_px`: `bg_px` over `fg_px`.
pub fn under(fg_px: Color<u8>, bg_px: Color<u8>) -> (out: Color<u8>)
    ensures
        out.r == blend_channel(bg_px.a, bg_px.r, fg_px.r),
        out.g == blend_channel(bg_px.a, bg_px.g, fg_px.g),
        out.b == blend_channel(bg_px.a, bg_px.b, fg_px.b),
        out.a == 255,
{
    over(bg_px, fg_px)
}

/// The blend of `fg` and `bg` that `blend_type` names.
pub open spec fn blend_spec(blend_type: BlendType, fg: Color<u8>, bg: Color<u8>) -> Color<u8> {
    match blend_type {
        BlendType::Over => Color {
            r: blend_channel(fg.a, fg.r, bg.r) as u8,
            g: blend_channel(fg.a, fg.g, bg.g) as u8,
            b: blend_channel(fg.a, fg.b, bg.b) as u8,
            a: 255,
        },
        BlendType::Under => Color {
            r: blend_channel(bg.a, bg.r, fg.r) as u8,
            g: blend_channel(bg.a, bg.g, fg.g) as u8,
            b: blend_channel(bg.a, bg.b, fg.b) as u8,
            a: 255,
        },
    }
}

} // verus!
