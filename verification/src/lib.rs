//! Conversion of an RGB raster into the text of a C array for monochrome
//! displays: every pixel is thresholded to one bit, eight bits may be packed
//! into a byte, and the grid is rendered as an array declaration.

pub mod convert;
pub mod emit;
pub mod error;
pub mod grid;
pub mod options;
pub mod pack;
pub mod parse;
pub mod text;
pub mod threshold;
