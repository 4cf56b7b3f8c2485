//! A four-channel normalized color. Each channel is a fixed-point
//! fraction of [`CHANNEL_ONE`]: the value `k` denotes `k / 65536`, so
//! `[0, 1)` maps to `[0, 65536)`. Channels are converted to a byte only
//! at the moment a pixel is written: a channel `k < 65536` becomes
//! `floor(k * 255 / 65536)` (the truncating conversion), and any channel
//! at or above one saturates to `255`.

use vstd::prelude::*;
use vstd::arithmetic::div_mod::{lemma_div_is_ordered, lemma_div_pos_is_pos};

verus! {

/// The fixed-point representation of the channel value one.
pub const CHANNEL_ONE: u32 = 65536;

/// An RGBA color; channels intended to lie in `[0, CHANNEL_ONE]`, larger
/// values are not validated and saturate at write time.
#[derive(Clone, Copy, PartialEq, Eq, Structural, Debug)]
pub struct Color {
    pub r: u32,
    pub g: u32,
    pub b: u32,
    pub a: u32,
}

/// The byte a channel produces in the pixel buffer.
pub open spec fn channel_byte(c: u32) -> u8 {
    if c >= CHANNEL_ONE {
        255u8
    } else {
        ((c * 255) / (CHANNEL_ONE as int)) as u8
    }
}

impl Color {
    pub fn new(r: u32, g: u32, b: u32, a: u32) -> (c: Color)
        ensures
            c == (Color { r, g, b, a }),
    {
        Color { r, g, b, a }
    }

    /// Converts one channel to its buffer byte.
    pub fn to_byte(c: u32) -> (b: u8)
        ensures
            b == channel_byte(c),
    {
        if c >= CHANNEL_ONE {
            255
        } else {
            proof {
                lemma_div_pos_is_pos((c * 255) as int, CHANNEL_ONE as int);
                lemma_div_is_ordered((c * 255) as int, 65535int * 255, CHANNEL_ONE as int);
            }
            (((c as u64) * 255) / (CHANNEL_ONE as u64)) as u8
        }
    }
}

} // verus!
