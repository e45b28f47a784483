use vstd::prelude::*;

verus! {

/// A color packed as a 32-bit ARGB (`0xAARRGGBB`) value.
#[derive(Debug, Clone, Copy, PartialEq, Eq, Structural)]
pub struct Color(u32);

impl View for Color {
    type V = u32;

    closed spec fn view(&self) -> u32 {
        self.0
    }
}

/// The packed value of opaque black, the background every render starts from.
pub const BLACK_ARGB: u32 = 0xFF00_0000;

/// The packed value of opaque white, the foreground of every drawn glyph
/// pixel.
pub const WHITE_ARGB: u32 = 0xFFFF_FFFF;

impl Color {
    /// Opaque black.
    pub fn black() -> (c: Color)
        ensures
            c@ == BLACK_ARGB,
    {
        Color(BLACK_ARGB)
    }

    /// Opaque white.
    pub fn white() -> (c: Color)
        ensures
            c@ == WHITE_ARGB,
    {
        Color(WHITE_ARGB)
    }

    /// Creates a color from an already-packed 32-bit ARGB value.
    pub fn new(argb: u32) -> (c: Color)
        ensures
            c@ == argb,
    {
        Color(argb)
    }

    /// Packs the four components big-endian: alpha in the top byte, then red,
    /// green, and blue in the low byte.
    pub fn from_argb(a: u8, r: u8, g: u8, b: u8) -> (c: Color)
        ensures
            c@ == ((a as u32) << 24) | ((r as u32) << 16) | ((g as u32) << 8) | (b as u32),
    {
        Color(((a as u32) << 24) | ((r as u32) << 16) | ((g as u32) << 8) | (b as u32))
    }

    /// Packs red, green and blue with a fully opaque alpha component.
    pub fn from_rgb(r: u8, g: u8, b: u8) -> (c: Color)
        ensures
            c@ == ((0xFFu32) << 24) | ((r as u32) << 16) | ((g as u32) << 8) | (b as u32),
    {
        Color::from_argb(0xFF, r, g, b)
    }

    /// Returns the packed 32-bit ARGB value of this color.
    pub fn to_argb(&self) -> (argb: u32)
        ensures
            argb == self@,
    {
        self.0
    }
}

/// A color is nothing but its packed value: colors with equal packed values
/// are equal.
pub proof fn lemma_color_eq(c1: Color, c2: Color)
    requires
        c1@ == c2@,
    ensures
        c1 == c2,
{
}

impl Default for Color {
    /// The default color is opaque black.
    fn default() -> (c: Color)
        ensures
            c@ == BLACK_ARGB,
    {
        Color(BLACK_ARGB)
    }
}

} // verus!
