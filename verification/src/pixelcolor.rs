//! Colours of pixels.

use vstd::prelude::*;

verus! {

/// A value that can be the colour of a pixel.
pub trait PixelColor: Copy + PartialEq {

}

/// A colour with two states.
#[derive(Clone, Copy, Debug, PartialEq, Eq, Structural, PartialOrd, Ord, Hash)]
pub enum BinaryColor {
    /// The pixel is dark.
    Off,
    /// The pixel is lit.
    On,
}

impl PixelColor for BinaryColor {

}

} // verus!
