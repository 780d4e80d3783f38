use vstd::prelude::*;

verus! {

/// An 8-bit RGB color. The color (0, 0, 0) is the background sentinel:
/// a pixel of that color is never a marker.
#[derive(Clone, Copy, PartialEq, Eq, Structural, Debug)]
pub struct Rgb {
    pub r: u8,
    pub g: u8,
    pub b: u8,
}

impl Rgb {
    /// The sort key of a color: the channels read as a 24-bit integer with
    /// red least significant and blue most significant.
    pub open spec fn precedence_spec(self) -> int {
        self.r + 256 * self.g + 65536 * self.b
    }

    /// Whether this color is the background sentinel (0, 0, 0).
    pub open spec fn is_background_spec(self) -> bool {
        self.r == 0 && self.g == 0 && self.b == 0
    }
}

/// The precedence key that orders markers: colors compare as 24-bit
/// integers with red least significant and blue most significant.
pub fn get_precedence(pixel: &Rgb) -> (key: u32)
    ensures
        key == pixel.precedence_spec(),
{
    pixel.r as u32 + 256 * pixel.g as u32 + 65536 * pixel.b as u32
}

/// Whether a pixel carries the background sentinel color (0, 0, 0).
pub fn is_background(pixel: &Rgb) -> (r: bool)
    ensures
        r == pixel.is_background_spec(),
{
    pixel.r == 0 && pixel.g == 0 && pixel.b == 0
}

} // verus!
