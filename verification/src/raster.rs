use vstd::prelude::*;

use crate::color::Rgb;

verus! {

/// A decoded RGB raster: `width * height` pixels stored row by row,
/// so the pixel at column `x`, row `y` sits at index `y * width + x`.
pub struct Raster {
    pub width: u32,
    pub height: u32,
    pub pixels: Vec<Rgb>,
}

impl Raster {
    /// Well-formed: the pixel buffer holds exactly one color per coordinate.
    pub open spec fn wf(self) -> bool {
        self.pixels@.len() == self.width * self.height
    }

    /// The color at column `x`, row `y`.
    pub open spec fn pixel(self, x: int, y: int) -> Rgb {
        self.pixels@[y * self.width + x]
    }

    /// Builds a raster from its dimensions and a row-major pixel buffer.
    /// Returns `None` exactly when the buffer length does not match the
    /// dimensions.
    pub fn new(width: u32, height: u32, pixels: Vec<Rgb>) -> (r: Option<Raster>)
        ensures
            r is Some <==> pixels@.len() == width * height,
            r matches Some(img) ==> img == (Raster { width, height, pixels }) && img.wf(),
    {
        proof {
            assert(width * height <= u32::MAX * u32::MAX) by (nonlinear_arith)
                requires
                    width <= u32::MAX,
                    height <= u32::MAX,
            ;
        }
        if pixels.len() as u64 == width as u64 * height as u64 {
            Some(Raster { width, height, pixels })
        } else {
            None
        }
    }

    /// The color of the pixel at column `x`, row `y`.
    pub fn get_pixel(&self, x: u32, y: u32) -> (c: Rgb)
        requires
            self.wf(),
            x < self.width,
            y < self.height,
        ensures
            c == self.pixel(x as int, y as int),
    {
        proof {
            assert(y * self.width + x < self.width * self.height && y * self.width
                <= 0xffff_fffe_0000_0001u64) by (nonlinear_arith)
                requires
                    x < self.width,
                    y < self.height,
                    self.width <= 0xffff_ffffu32,
                    self.height <= 0xffff_ffffu32,
            ;
        }
        let n: usize = self.pixels.len();
        let wide: u64 = y as u64 * self.width as u64 + x as u64;
        assert(wide < n as u64);
        let idx: usize = wide as usize;
        self.pixels[idx]
    }

    /// The raster's width and height.
    pub fn dimensions(&self) -> (d: (u32, u32))
        ensures
            d == (self.width, self.height),
    {
        (self.width, self.height)
    }
}

} // verus!
