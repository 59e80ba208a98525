//! Reconstruction of a color astronomical image from four separately
//! captured monochrome exposures: a luminance plane and red, green, blue
//! chrominance planes (the "LRGB" technique).
//!
//! The library selects the unique grayscale data plane out of each
//! multi-extension image container, validates that all four planes share
//! geometry and numeric encoding, and computes a luminance-weighted color
//! composite that redistributes each pixel's luminance across the three
//! chrominance planes in proportion to their ratios at that pixel.

pub mod compose;
pub mod plane;
pub mod select;
