//! The TGA image format.

pub mod header;
pub mod parse_error;
