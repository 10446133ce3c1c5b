//! Reducing a pixel to one bit.

use vstd::prelude::*;
use crate::options::{Comparison, Options, Pixel};

verus! {

/// Every channel of `pixel` is strictly above its cutoff.
pub open spec fn exceeds(pixel: Pixel, threshold: Pixel) -> bool {
    pixel.0 > threshold.0 && pixel.1 > threshold.1 && pixel.2 > threshold.2
}

/// The channels of `pixel` sum to more than one and a half times 255.
pub open spec fn bright(pixel: Pixel) -> bool {
    2 * (pixel.0 + pixel.1 + pixel.2) > 3 * 255
}

/// The bit of `pixel` under the per-channel test: on where it exceeds the
/// threshold, and the other way round where `invert` is set.
pub open spec fn classified(pixel: Pixel, threshold: Pixel, invert: bool) -> bool {
    exceeds(pixel, threshold) != invert
}

/// The bit of `pixel` under the test that the options choose.
pub open spec fn is_on(pixel: Pixel, options: Options) -> bool {
    match options.comparison {
        Comparison::PerChannel => classified(pixel, options.threshold, options.invert),
        Comparison::Luminance => bright(pixel) != options.invert,
    }
}

/// Classifies one pixel against a threshold, channel by channel.
pub fn classify(pixel: Pixel, threshold: Pixel, invert: bool) -> (bit: bool)
    ensures
        bit == classified(pixel, threshold, invert),
        exceeds(pixel, threshold) ==> bit == !invert,
        !exceeds(pixel, threshold) ==> bit == invert,
{
    let above = pixel.0 > threshold.0 && pixel.1 > threshold.1 && pixel.2 > threshold.2;
    if invert {
        !above
    } else {
        above
    }
}

/// Classifies one pixel by the sum of its channels.
pub fn classify_luminance(pixel: Pixel, invert: bool) -> (bit: bool)
    ensures
        bit == (bright(pixel) != invert),
{
    let sum: u16 = pixel.0 as u16 + pixel.1 as u16 + pixel.2 as u16;
    let above = 2 * sum > 765;
    if invert {
        !above
    } else {
        above
    }
}

/// Classifies one pixel as the options ask.
pub fn compare(rgb: Pixel, options: &Options) -> (bit: bool)
    ensures
        bit == is_on(rgb, *options),
        options.comparison == Comparison::PerChannel ==> bit == classified(
            rgb,
            options.threshold,
            options.invert,
        ),
{
    match options.comparison {
        Comparison::PerChannel => classify(rgb, options.threshold, options.invert),
        Comparison::Luminance => classify_luminance(rgb, options.invert),
    }
}

} // verus!
