//! Pixels and the two brightness figures derived from them.
//!
//! A pixel has four 8-bit channels. Its *luminance* decides whether it
//! belongs to a sortable span (the mask), while its *brightness key*,
//! the plain sum of all four channels, orders pixels within a span.

use vstd::prelude::*;

verus! {

/// One RGBA pixel: four 8-bit channels.
#[derive(Clone, Copy, Debug, PartialEq, Eq, Structural)]
pub struct Pixel {
    pub r: u8,
    pub g: u8,
    pub b: u8,
    pub a: u8,
}

/// The luminance of a pixel: the Rec. 709 weighted sum of the colour
/// channels, computed in integer arithmetic. The weights add up to
/// 10000, so the result always fits in 8 bits.
pub open spec fn luminance_spec(p: Pixel) -> int {
    (2126 * p.r + 7152 * p.g + 722 * p.b) / 10000
}

/// The brightness key of a pixel: the sum of all four channel values.
/// This is the sort key within a span; it is a coarser figure than the
/// luminance used for masking.
pub open spec fn brightness_key(p: Pixel) -> int {
    p.r + p.g + p.b + p.a
}

/// Whether a pixel's luminance lies outside the closed threshold window
/// `[lo, hi]`; such a pixel is a boundary pixel and is never sorted.
pub open spec fn is_boundary(p: Pixel, lo: u8, hi: u8) -> bool {
    luminance_spec(p) < lo || luminance_spec(p) > hi
}

impl Pixel {
    /// Compute the luminance of this pixel.
    pub fn luminance(&self) -> (l: u8)
        ensures
            l == luminance_spec(*self),
    {
        let weighted: u32 = 2126 * (self.r as u32) + 7152 * (self.g as u32) + 722 * (self.b as u32);
        assert(weighted / 10000 <= 255);
        (weighted / 10000) as u8
    }

    /// Compute the brightness key of this pixel.
    pub fn key(&self) -> (k: u16)
        ensures
            k == brightness_key(*self),
    {
        self.r as u16 + self.g as u16 + self.b as u16 + self.a as u16
    }

    /// Decide whether this pixel is a boundary pixel for the window
    /// `[lo, hi]`.
    pub fn is_boundary(&self, lo: u8, hi: u8) -> (r: bool)
        ensures
            r == is_boundary(*self, lo, hi),
    {
        let l = self.luminance();
        l < lo || l > hi
    }
}

} // verus!
