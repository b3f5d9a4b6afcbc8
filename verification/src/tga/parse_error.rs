//! What can be wrong with the bytes of a TGA image.

use vstd::prelude::*;

verus! {

/// A value that the format does not allow.
#[derive(Clone, Copy, Debug, PartialEq, Eq, Structural, PartialOrd, Ord, Hash)]
pub enum ParseError {
    /// The colour map flag is neither 0 nor 1.
    UnknownColorMap(u8),
    /// The image type is none of the known ones.
    UnknownImageType(u8),
}

/// Why a parser gave up.
#[derive(Clone, Copy, Debug, PartialEq, Eq, Structural, PartialOrd, Ord, Hash)]
pub enum ErrorKind {
    /// The input ended before the field did.
    Eof,
    /// The bytes of the field were there, but do not stand for a value.
    MapRes,
}

/// A parser's failure: the input it was given, and why it gave up on it.
#[derive(Clone, Copy, Debug, PartialEq, Eq)]
pub struct Error<'a> {
    /// The input of the parser that failed: what was left of the whole
    /// input at that point.
    pub input: &'a [u8],
    /// Why it failed.
    pub kind: ErrorKind,
}

} // verus!
