//! How a primitive is drawn.

use crate::pixelcolor::PixelColor;
use vstd::prelude::*;

verus! {

/// Colours and stroke width of a primitive.
#[derive(Clone, Copy, Debug, PartialEq, Eq, PartialOrd, Ord, Hash)]
pub struct PrimitiveStyle<C: PixelColor> {
    /// Colour of the inside of a shape, if it is filled.
    pub fill_color: Option<C>,
    /// Colour of the outline, if there is one.
    pub stroke_color: Option<C>,
    /// Width of the outline in pixels.
    pub stroke_width: u32,
}

impl<C: PixelColor> PrimitiveStyle<C> {
    /// A style that draws nothing: no colours, and a stroke of width zero.
    pub fn new() -> (style: Self)
        ensures
            style.fill_color is None,
            style.stroke_color is None,
            style.stroke_width == 0,
    {
        PrimitiveStyle { fill_color: None, stroke_color: None, stroke_width: 0 }
    }

    /// A style with a stroke of the given colour and width, and no fill.
    pub fn with_stroke(stroke_color: C, stroke_width: u32) -> (style: Self)
        ensures
            style.fill_color is None,
            style.stroke_color == Some(stroke_color),
            style.stroke_width == stroke_width,
    {
        PrimitiveStyle { fill_color: None, stroke_color: Some(stroke_color), stroke_width }
    }
}

} // verus!
