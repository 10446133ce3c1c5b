//! The configuration of one conversion.

use vstd::prelude::*;

verus! {

/// One pixel: its red, green and blue channel.
pub type Pixel = (u8, u8, u8);

/// The cutoff that every channel is given when none is chosen.
pub const DEFAULT_THRESHOLD: u8 = 127;

/// How a pixel is held against a cutoff.
#[derive(Clone, Copy, Debug, PartialEq, Eq, Structural)]
pub enum Comparison {
    /// Every channel against the cutoff of its own.
    PerChannel,
    /// The sum of the three channels against one and a half times 255.
    Luminance,
}

/// What a conversion is run with. The value is fixed for the whole run and
/// handed to every function that classifies or packs.
#[derive(Clone, Copy, Debug, PartialEq, Eq)]
pub struct Options {
    /// Pack eight pixels into one byte.
    pub compact: bool,
    /// In a packed byte, let the first pixel of a group take the highest bit.
    pub flip: bool,
    /// Swap the sense of the threshold test.
    pub invert: bool,
    /// Produce the preview, one character per pixel.
    pub print: bool,
    /// The cutoff of each channel: red, green, blue.
    pub threshold: Pixel,
    /// Which test decides whether a pixel is on.
    pub comparison: Comparison,
}

impl Default for Options {
    /// All switches off, every channel cut at `DEFAULT_THRESHOLD` on its own.
    fn default() -> (options: Options)
        ensures
            options == (Options {
                compact: false,
                flip: false,
                invert: false,
                print: false,
                threshold: (DEFAULT_THRESHOLD, DEFAULT_THRESHOLD, DEFAULT_THRESHOLD),
                comparison: Comparison::PerChannel,
            }),
    {
        Options {
            compact: false,
            flip: false,
            invert: false,
            print: false,
            threshold: (DEFAULT_THRESHOLD, DEFAULT_THRESHOLD, DEFAULT_THRESHOLD),
            comparison: Comparison::PerChannel,
        }
    }
}

} // verus!
