//! Colors, device coordinates, and the alpha-compositing arithmetic.

use vstd::prelude::*;

verus! {

/// An RGBA color; each channel runs 0..=255.
#[derive(Debug, Clone, Copy, PartialEq, Eq, Structural)]
pub struct Color {
    pub r: u8,
    pub g: u8,
    pub b: u8,
    pub a: u8,
}

impl Color {
    pub fn new(r: u8, g: u8, b: u8, a: u8) -> (c: Color)
        ensures
            c == (Color { r, g, b, a }),
    {
        Color { r, g, b, a }
    }

    /// The four bytes of one pixel, in memory order.
    pub fn to_bytes(&self) -> (bytes: [u8; 4])
        ensures
            bytes@ == seq![self.r, self.g, self.b, self.a],
    {
        let bytes = [self.r, self.g, self.b, self.a];
        proof {
            assert(bytes@ =~= seq![self.r, self.g, self.b, self.a]);
        }
        bytes
    }

    pub fn black() -> (c: Color)
        ensures
            c == (Color { r: 0, g: 0, b: 0, a: 255 }),
    {
        Color::new(0, 0, 0, 255)
    }

    pub fn white() -> (c: Color)
        ensures
            c == (Color { r: 255, g: 255, b: 255, a: 255 }),
    {
        Color::new(255, 255, 255, 255)
    }

    pub fn green() -> (c: Color)
        ensures
            c == (Color { r: 0, g: 255, b: 0, a: 255 }),
    {
        Color::new(0, 255, 0, 255)
    }
}

/// A position in device pixel coordinates.
#[derive(Debug, Clone, Copy, PartialEq, Eq, Structural)]
pub struct Point {
    pub x: u16,
    pub y: u16,
}

impl Point {
    pub fn new(x: u16, y: u16) -> (p: Point)
        ensures
            p == (Point { x, y }),
    {
        Point { x, y }
    }
}

/// One channel of the integer alpha blend: `(fg*a + bg*(255-a)) / 255`,
/// truncating.  The result always fits a byte.
pub open spec fn blend_channel(fg: u8, bg: u8, a: u8) -> u8 {
    (((fg as int) * (a as int) + (bg as int) * (255 - a as int)) / 255) as u8
}

/// The numerator of the blend stays within `255 * 255`, so the quotient
/// stays within a byte.
pub proof fn lemma_blend_channel_bounds(fg: u8, bg: u8, a: u8)
    ensures
        0 <= (fg as int) * (a as int) + (bg as int) * (255 - a as int) <= 255 * 255,
{
    assert((fg as int) * (a as int) <= 255 * (a as int)) by (nonlinear_arith)
        requires fg <= 255, 0 <= a;
    assert((bg as int) * (255 - a as int) <= 255 * (255 - a as int)) by (nonlinear_arith)
        requires bg <= 255, a <= 255;
    assert((fg as int) * (a as int) >= 0) by (nonlinear_arith)
        requires 0 <= fg, 0 <= a;
    assert((bg as int) * (255 - a as int) >= 0) by (nonlinear_arith)
        requires 0 <= bg, a <= 255;
    assert(255 * (a as int) + 255 * (255 - a as int) == 255 * 255) by (nonlinear_arith);
}

/// Executable blend, proved against `blend_channel`.
pub fn blend_channel_exec(fg: u8, bg: u8, a: u8) -> (out: u8)
    ensures
        out == blend_channel(fg, bg, a),
{
    proof {
        lemma_blend_channel_bounds(fg, bg, a);
    }
    let alpha: u32 = a as u32;
    let inv_alpha: u32 = 255 - alpha;
    (((fg as u32) * alpha + (bg as u32) * inv_alpha) / 255) as u8
}

} // verus!
