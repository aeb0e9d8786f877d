//! Colours written as hexadecimal numbers.

use vstd::prelude::*;

verus! {

/// The red, green and blue channels of a colour written as `0xRRGGBB`, each
/// from 0 to 255.  Bits above the low 24 count for nothing.
pub fn hex_channels(hex: u32) -> (channels: (u8, u8, u8))
    ensures
        channels.0 == (hex >> 16) & 0xFF,
        channels.1 == (hex >> 8) & 0xFF,
        channels.2 == hex & 0xFF,
        (hex & 0xFF_FFFF) == channels.0 * 65536 + channels.1 * 256 + channels.2,
{
    let r: u32 = (hex >> 16) & 0xFF;
    let g: u32 = (hex >> 8) & 0xFF;
    let b: u32 = hex & 0xFF;
    assert(r <= 255 && g <= 255 && b <= 255 && (hex & 0xFF_FFFF) == r * 65536 + g * 256 + b)
        by (bit_vector)
        requires
            r == (hex >> 16) & 0xFF,
            g == (hex >> 8) & 0xFF,
            b == hex & 0xFF,
    ;
    (r as u8, g as u8, b as u8)
}

} // verus!
