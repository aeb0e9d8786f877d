//! The pixel formats of a texture on the graphics device.

use vstd::prelude::*;

verus! {

/// A pixel format: three or four channels, each a 32-bit float or a byte.
#[derive(Clone, Copy, Debug)]
pub enum Format {
    RGB,
    RGBA,
    RGBU8,
    RGBAU8,
}

impl Format {
    /// The number of channels of a pixel.
    pub open spec fn channels(self) -> nat {
        match self {
            Format::RGB | Format::RGBU8 => 3,
            Format::RGBA | Format::RGBAU8 => 4,
        }
    }

    /// The size of one channel in bytes.
    pub open spec fn channel_bytes(self) -> nat {
        match self {
            Format::RGB | Format::RGBA => 4,
            Format::RGBU8 | Format::RGBAU8 => 1,
        }
    }

    /// The size of a pixel in bytes.
    pub fn bytes(&self) -> (n: usize)
        ensures
            n == self.channels() * self.channel_bytes(),
    {
        match self {
            Format::RGB => 3 * 4,
            Format::RGBA => 4 * 4,
            Format::RGBU8 => 3,
            Format::RGBAU8 => 4,
        }
    }

    /// The number of bytes that an image of `width` by `height` pixels takes,
    /// or nothing where that number does not fit.
    pub fn image_bytes(&self, width: usize, height: usize) -> (n: Option<usize>)
        ensures
            n.is_some() == (width * height * self.channels() * self.channel_bytes() <= usize::MAX),
            n.is_some() ==> n.unwrap() == width * height * self.channels() * self.channel_bytes(),
    {
        let per_pixel = self.bytes();
        proof {
            assert(width * height * self.channels() * self.channel_bytes() == (width * height)
                * per_pixel) by (nonlinear_arith)
                requires
                    per_pixel == self.channels() * self.channel_bytes(),
            ;
            assert(width * height <= (width * height) * per_pixel) by (nonlinear_arith)
                requires
                    per_pixel >= 1,
            ;
        }
        match width.checked_mul(height) {
            Some(pixels) => pixels.checked_mul(per_pixel),
            None => None,
        }
    }
}

} // verus!
