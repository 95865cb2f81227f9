use vstd::prelude::*;

verus! {

/// An RGBA color with one byte per channel. The rasterizer copies colors
/// into pixels and never inspects the channel values.
#[derive(Clone, Copy, PartialEq, Eq, Structural, Debug)]
pub struct Color {
    pub r: u8,
    pub g: u8,
    pub b: u8,
    pub a: u8,
}

/// The four channel bytes of a color, in the order they are stored in a pixel.
pub open spec fn rgba_of(c: Color) -> (u8, u8, u8, u8) {
    (c.r, c.g, c.b, c.a)
}

impl Color {
    pub fn new(r: u8, g: u8, b: u8, a: u8) -> (c: Color)
        ensures
            c == (Color { r, g, b, a }),
    {
        Color { r, g, b, a }
    }

    /// Fully opaque white.
    pub fn white() -> (c: Color)
        ensures
            c == (Color { r: 255, g: 255, b: 255, a: 255 }),
    {
        Color { r: 255, g: 255, b: 255, a: 255 }
    }
}

} // verus!
