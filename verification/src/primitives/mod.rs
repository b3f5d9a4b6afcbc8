//! Drawing primitives.

pub mod band;
pub mod cursor;
pub mod line;
pub mod perp_line;
pub mod reversal;
pub mod thick_line;
