//! Images as plain pixels.

use vstd::prelude::*;

verus! {

/// A color image: three bytes per pixel, red, green and blue, row after row.
#[derive(Debug, PartialEq, Eq)]
pub struct RgbFrame {
    pub width: u32,
    pub height: u32,
    pub pixels: Vec<u8>,
}

impl RgbFrame {
    /// Whether there are bytes for every pixel.
    pub open spec fn is_whole(&self) -> bool {
        3 * self.width * self.height <= self.pixels@.len()
    }

    /// The red, green and blue of the pixel at `x`, `y`.
    pub open spec fn pixel(&self, x: int, y: int) -> (u8, u8, u8) {
        let at = 3 * (y * self.width + x);
        (self.pixels@[at], self.pixels@[at + 1], self.pixels@[at + 2])
    }

    /// Whether there are bytes for every pixel.
    pub fn check_size(&self) -> (r: bool)
        ensures
            r == self.is_whole(),
    {
        assert(0 <= self.width * self.height <= u32::MAX * u32::MAX) by (nonlinear_arith);
        let area: u128 = (self.width as u128) * (self.height as u128);
        assert(3 * area == 3 * self.width * self.height) by (nonlinear_arith)
            requires
                area == self.width * self.height,
        ;
        3 * area <= self.pixels.len() as u128
    }

    /// The red, green and blue of the pixel at `x`, `y`.
    pub fn get_pixel(&self, x: u32, y: u32) -> (r: (u8, u8, u8))
        requires
            self.is_whole(),
            x < self.width,
            y < self.height,
        ensures
            r == self.pixel(x as int, y as int),
    {
        assert(y * self.width + x + 1 <= self.width * self.height) by (nonlinear_arith)
            requires
                x < self.width,
                y < self.height,
        ;
        assert(3 * self.width * self.height == 3 * (self.width * self.height)) by (nonlinear_arith);
        assert(0 <= y * self.width) by (nonlinear_arith);
        let size: usize = self.pixels.len();
        assert(3 * (y * self.width + x) + 2 < size);
        let at: usize = 3 * ((y as usize) * (self.width as usize) + x as usize);
        (self.pixels[at], self.pixels[at + 1], self.pixels[at + 2])
    }
}

/// A gray image: one byte per pixel, row after row.
#[derive(Debug, PartialEq, Eq)]
pub struct GrayFrame {
    pub width: u32,
    pub height: u32,
    pub pixels: Vec<u8>,
}

impl GrayFrame {
    /// Whether there is one byte for each pixel.
    pub open spec fn is_whole(&self) -> bool {
        self.width * self.height == self.pixels@.len()
    }
}

} // verus!
