//! What a drawing hands to its target.

use crate::geometry::Point;
use crate::pixelcolor::PixelColor;
use vstd::prelude::*;

verus! {

/// A point of the grid together with the colour it is given.
#[derive(Clone, Copy, Debug, PartialEq, Eq, PartialOrd, Ord, Hash)]
pub struct Pixel<C: PixelColor>(pub Point, pub C);

} // verus!
