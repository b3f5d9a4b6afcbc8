//! Thick lines on the pixel grid, and the header of TGA images.
//!
//! [`primitives::thick_line`] draws a straight line with a stroke width as a
//! band of thin lines, with integer arithmetic only. What it draws is stated
//! in closed form in [`primitives::band`], in which order in
//! [`primitives::cursor`], and what becomes of it when the ends of the line
//! are swapped in [`primitives::reversal`]. [`primitives::line`] holds the
//! thin line that the band is made of, [`primitives::perp_line`] the caps at
//! its ends, and [`sqrt`] the rounded square root behind its thickness.
//!
//! [`tga::header`] reads the fixed-layout header at the start of a TGA image.

pub mod drawable;
pub mod geometry;
pub mod pixelcolor;
pub mod primitives;
pub mod sqrt;
pub mod style;
pub mod tga;
