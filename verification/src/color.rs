//! The pixel value: three 8-bit channels, no alpha.

use vstd::prelude::*;

verus! {

/// An opaque RGB color with integer channels in `[0, 255]`.
#[derive(Clone, Copy, Debug, PartialEq, Eq, Structural)]
pub struct Color {
    pub r: u8,
    pub g: u8,
    pub b: u8,
}

impl Color {
    /// The color that `0xRRGGBBAA` names; the alpha byte is dropped.
    pub open spec fn rgba(rgba: u32) -> Color {
        Color { r: (rgba >> 24) as u8, g: ((rgba >> 16) & 0xff) as u8, b: ((rgba >> 8) & 0xff) as u8 }
    }

    /// The squared Euclidean distance to `other` in RGB space.
    pub open spec fn distance(self, other: Color) -> int {
        (self.r - other.r) * (self.r - other.r) + (self.g - other.g) * (self.g - other.g) + (
        self.b - other.b) * (self.b - other.b)
    }

    /// Builds a color from its three channels.
    pub fn from_rgb(r: u8, g: u8, b: u8) -> (c: Color)
        ensures
            c == (Color { r, g, b }),
    {
        Color { r, g, b }
    }

    /// Builds a color from a packed `0xRRGGBBAA` word, dropping the alpha byte.
    pub fn from_u32_rgba(rgba: u32) -> (c: Color)
        ensures
            c == Color::rgba(rgba),
    {
        let r: u32 = rgba >> 24;
        let g: u32 = (rgba >> 16) & 0xff;
        let b: u32 = (rgba >> 8) & 0xff;
        assert(rgba >> 24 <= 0xff) by (bit_vector);
        assert((rgba >> 16) & 0xff <= 0xff) by (bit_vector);
        assert((rgba >> 8) & 0xff <= 0xff) by (bit_vector);
        Color { r: r as u8, g: g as u8, b: b as u8 }
    }

    /// Black, the color of a freshly allocated pixel.
    pub fn black() -> (c: Color)
        ensures
            c == (Color { r: 0, g: 0, b: 0 }),
    {
        Color { r: 0, g: 0, b: 0 }
    }

    /// The squared Euclidean distance to `other` in RGB space.
    pub fn distance_to(&self, other: &Color) -> (d: u32)
        ensures
            d == self.distance(*other),
            d <= 195075,
    {
        let dr: i32 = self.r as i32 - other.r as i32;
        let dg: i32 = self.g as i32 - other.g as i32;
        let db: i32 = self.b as i32 - other.b as i32;
        assert(0 <= dr * dr <= 65025) by (nonlinear_arith)
            requires
                -255 <= dr <= 255,
        ;
        assert(0 <= dg * dg <= 65025) by (nonlinear_arith)
            requires
                -255 <= dg <= 255,
        ;
        assert(0 <= db * db <= 65025) by (nonlinear_arith)
            requires
                -255 <= db <= 255,
        ;
        (dr * dr + dg * dg + db * db) as u32
    }
}

} // verus!
