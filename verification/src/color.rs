//! The pixel type: four unsigned 8-bit channels. The alpha channel is never
//! persisted by the codec; decoding always yields fully opaque pixels.

use vstd::prelude::*;

verus! {

/// One pixel: red, green, blue and alpha channels, 8 bits each.
#[derive(Clone, Copy, PartialEq, Eq, Structural, Debug)]
pub struct Pixel {
    pub r: u8,
    pub g: u8,
    pub b: u8,
    pub a: u8,
}

impl Pixel {
    pub fn new(r: u8, g: u8, b: u8, a: u8) -> (p: Pixel)
        ensures
            p == (Pixel { r, g, b, a }),
    {
        Pixel { r, g, b, a }
    }

    /// The transparent black pixel, the content of a freshly blank canvas.
    pub fn zero() -> (p: Pixel)
        ensures
            p == (Pixel { r: 0u8, g: 0u8, b: 0u8, a: 0u8 }),
    {
        Pixel { r: 0, g: 0, b: 0, a: 0 }
    }
}

} // verus!
