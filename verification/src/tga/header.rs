//! The fixed part at the start of a TGA image.
//!
//! The header is 18 bytes, multi-byte fields in little-endian order, followed
//! by an image identifier whose length the first byte of the header gives:
//!
//! | offset | bytes | field |
//! |-------:|------:|-------|
//! | 0 | 1 | length of the image identifier |
//! | 1 | 1 | colour map flag, 0 or 1 |
//! | 2 | 1 | image type |
//! | 3 | 2 | colour map origin |
//! | 5 | 2 | colour map length |
//! | 7 | 1 | colour map depth |
//! | 8 | 2 | x origin |
//! | 10 | 2 | y origin |
//! | 12 | 2 | width |
//! | 14 | 2 | height |
//! | 16 | 1 | pixel depth |
//! | 17 | 1 | image descriptor |

use crate::tga::parse_error::{Error, ErrorKind, ParseError};
use vstd::prelude::*;

verus! {

/// Length of the header in bytes, without the image identifier.
pub const HEADER_LEN: usize = 18;

/// Image type
#[derive(Clone, Copy, Debug, PartialEq, Eq, Structural, PartialOrd, Ord, Hash)]
pub enum ImageType {
    /// Image contains no pixel data
    Empty,
    /// Color mapped image
    ColorMapped,
    /// Truecolor image
    Truecolor,
    /// Monochrome (greyscale) image
    Monochrome,
    /// Run length encoded color mapped image
    RleColorMapped,
    /// Run length encoded RGB image
    RleTruecolor,
    /// Run length encoded monochrome (greyscale) image
    RleMonochrome,
}

impl ImageType {
    /// The byte that stands for the image type in a header.
    pub open spec fn code(self) -> u8 {
        match self {
            ImageType::Empty => 0,
            ImageType::ColorMapped => 1,
            ImageType::Truecolor => 2,
            ImageType::Monochrome => 3,
            ImageType::RleColorMapped => 9,
            ImageType::RleTruecolor => 10,
            ImageType::RleMonochrome => 11,
        }
    }

    /// Whether `b` stands for an image type.
    pub open spec fn is_code(b: u8) -> bool {
        b <= 3 || 9 <= b <= 11
    }

    /// The image type that `b` stands for, if it stands for one.
    pub open spec fn of_code(b: u8) -> ImageType {
        if b == 0 {
            ImageType::Empty
        } else if b == 1 {
            ImageType::ColorMapped
        } else if b == 2 {
            ImageType::Truecolor
        } else if b == 3 {
            ImageType::Monochrome
        } else if b == 9 {
            ImageType::RleColorMapped
        } else if b == 10 {
            ImageType::RleTruecolor
        } else {
            ImageType::RleMonochrome
        }
    }
}

/// TGA header structure
#[derive(Clone, Copy, Debug, PartialEq, Eq, Structural, PartialOrd, Ord, Hash)]
pub struct TgaHeader {
    /// Image ID field length
    pub id_len: u8,
    /// Whether a color map is included in the image data
    pub has_color_map: bool,
    /// Image type
    pub image_type: ImageType,
    /// Color map origin
    pub color_map_start: u16,
    /// Length of color map
    pub color_map_len: u16,
    /// Number of bits in each color palette entry, typically 15, 16, 24, or 32 bits
    pub color_map_depth: u8,
    /// Image origin (X)
    pub x_origin: u16,
    /// Image origin (Y)
    pub y_origin: u16,
    /// Image width in pixels
    pub width: u16,
    /// Image height in pixels
    pub height: u16,
    /// Pixel bit depth (8, 16, 24, 32 bits)
    pub pixel_depth: u8,
    /// Image descriptor (unused)
    ///
    /// Bits 0:3: Number of bits per pixel designated to alpha channel
    /// Bits 4:5: Image origin:
    ///
    /// * `00` = bottom left
    /// * `01` = bottom right
    /// * `10` = top left
    /// * `11` = top right
    pub image_descriptor: u8,
}

/// The little-endian number in the two bytes of `bytes` from index `i`.
pub open spec fn le_u16_at(bytes: Seq<u8>, i: int) -> u16 {
    (bytes[i] + 256 * bytes[i + 1]) as u16
}

/// The header that the first 18 of `bytes` stand for, where they stand for
/// one.
pub open spec fn decoded(bytes: Seq<u8>) -> TgaHeader {
    TgaHeader {
        id_len: bytes[0],
        has_color_map: bytes[1] == 1,
        image_type: ImageType::of_code(bytes[2]),
        color_map_start: le_u16_at(bytes, 3),
        color_map_len: le_u16_at(bytes, 5),
        color_map_depth: bytes[7],
        x_origin: le_u16_at(bytes, 8),
        y_origin: le_u16_at(bytes, 10),
        width: le_u16_at(bytes, 12),
        height: le_u16_at(bytes, 14),
        pixel_depth: bytes[16],
        image_descriptor: bytes[17],
    }
}

/// The offset at which the field begins that holds the byte at offset `i`.
/// Everything from offset 18 on belongs to the image identifier.
pub open spec fn field_start(i: int) -> int {
    if i >= 18 {
        18
    } else if i >= 16 {
        i
    } else if i >= 8 {
        i - i % 2
    } else if i >= 7 {
        7
    } else if i >= 3 {
        i - (i - 3) % 2
    } else {
        i
    }
}

/// How many bytes the header and the image identifier take together, where
/// `bytes` has a first byte.
pub open spec fn encoded_len(bytes: Seq<u8>) -> int {
    HEADER_LEN + bytes[0]
}

/// Where and why parsing `bytes` fails, if it does. A colour map flag or an
/// image type that is present and stands for no value fails at its own
/// offset, the flag before the type. Otherwise parsing fails if the input
/// ends before the image identifier does, at the start of the field that is
/// cut short.
pub open spec fn failure(bytes: Seq<u8>) -> Option<(int, ErrorKind)> {
    if bytes.len() >= 2 && bytes[1] > 1 {
        Some((1, ErrorKind::MapRes))
    } else if bytes.len() >= 3 && !ImageType::is_code(bytes[2]) {
        Some((2, ErrorKind::MapRes))
    } else if bytes.len() < 1 || bytes.len() < encoded_len(bytes) {
        Some((field_start(bytes.len() as int), ErrorKind::Eof))
    } else {
        None
    }
}

/// Calls `nom::number::complete::le_u8`. On an empty input it gives an error,
/// of kind `Eof`, that holds the input; on any other it gives the first byte
/// and the rest of the input.
#[verifier::external_body]
fn le_u8(input: &[u8]) -> (r: Option<(&[u8], u8)>)
    ensures
        r is None <==> input@.len() < 1,
        r matches Some((rest, value)) ==> rest@ == input@.skip(1) && value == input@[0],
{
    match nom::number::complete::le_u8::<(&[u8], nom::error::ErrorKind)>(input) {
        Ok((rest, value)) => Some((rest, value)),
        Err(_) => None,
    }
}

/// Calls `nom::number::complete::le_u16`. On an input of less than two bytes
/// it gives an error, of kind `Eof`, that holds the input; on any other it
/// gives the first two bytes as a little-endian number, and the rest of the
/// input.
#[verifier::external_body]
fn le_u16(input: &[u8]) -> (r: Option<(&[u8], u16)>)
    ensures
        r is None <==> input@.len() < 2,
        r matches Some((rest, value)) ==> rest@ == input@.skip(2) && value == le_u16_at(input@, 0),
{
    match nom::number::complete::le_u16::<(&[u8], nom::error::ErrorKind)>(input) {
        Ok((rest, value)) => Some((rest, value)),
        Err(_) => None,
    }
}

/// Calls the parser that `nom::bytes::complete::take` makes for `count`. On
/// an input of less than `count` bytes it gives an error, of kind `Eof`, that
/// holds the input; on any other it gives the rest of the input and its
/// first `count` bytes, in this order.
#[verifier::external_body]
fn take(count: u8, input: &[u8]) -> (r: Option<(&[u8], &[u8])>)
    ensures
        r is None <==> input@.len() < count,
        r matches Some((rest, taken)) ==> rest@ == input@.skip(count as int) && taken@
            == input@.take(count as int),
{
    match nom::bytes::complete::take::<u8, &[u8], (&[u8], nom::error::ErrorKind)>(count)(input) {
        Ok((rest, taken)) => Some((rest, taken)),
        Err(_) => None,
    }
}

/// What a colour map flag says: 0 that there is no colour map, 1 that there
/// is one. Other values say nothing.
pub fn color_map_flag(b: u8) -> (r: Result<bool, ParseError>)
    ensures
        b <= 1 ==> r == Ok::<bool, ParseError>(b == 1),
        b > 1 ==> r == Err::<bool, ParseError>(ParseError::UnknownColorMap(b)),
{
    match b {
        0 => Ok(false),
        1 => Ok(true),
        other => Err(ParseError::UnknownColorMap(other)),
    }
}

/// The image type that a byte stands for.
pub fn image_type_code(b: u8) -> (r: Result<ImageType, ParseError>)
    ensures
        ImageType::is_code(b) ==> r == Ok::<ImageType, ParseError>(ImageType::of_code(b)),
        !ImageType::is_code(b) ==> r == Err::<ImageType, ParseError>(
            ParseError::UnknownImageType(b),
        ),
        r matches Ok(t) ==> t.code() == b,
{
    match b {
        0 => Ok(ImageType::Empty),
        1 => Ok(ImageType::ColorMapped),
        2 => Ok(ImageType::Truecolor),
        3 => Ok(ImageType::Monochrome),
        9 => Ok(ImageType::RleColorMapped),
        10 => Ok(ImageType::RleTruecolor),
        11 => Ok(ImageType::RleMonochrome),
        other => Err(ParseError::UnknownImageType(other)),
    }
}

/// Parses a colour map flag from the first byte of `input`.
fn has_color_map<'a>(input: &'a [u8]) -> (r: Result<(&'a [u8], bool), Error<'a>>)
    ensures
        match r {
            Ok((rest, flag)) => {
                &&& input@.len() >= 1
                &&& input@[0] <= 1
                &&& rest@ == input@.skip(1)
                &&& flag == (input@[0] == 1)
            },
            Err(e) => {
                &&& e.input@ == input@
                &&& e.kind == if input@.len() < 1 {
                    ErrorKind::Eof
                } else {
                    ErrorKind::MapRes
                }
                &&& input@.len() >= 1 ==> input@[0] > 1
            },
        },
{
    match le_u8(input) {
        None => Err(Error { input, kind: ErrorKind::Eof }),
        Some((rest, b)) => match color_map_flag(b) {
            Ok(flag) => Ok((rest, flag)),
            Err(_) => Err(Error { input, kind: ErrorKind::MapRes }),
        },
    }
}

/// Parses an image type from the first byte of `input`.
fn image_type<'a>(input: &'a [u8]) -> (r: Result<(&'a [u8], ImageType), Error<'a>>)
    ensures
        match r {
            Ok((rest, t)) => {
                &&& input@.len() >= 1
                &&& ImageType::is_code(input@[0])
                &&& rest@ == input@.skip(1)
                &&& t == ImageType::of_code(input@[0])
            },
            Err(e) => {
                &&& e.input@ == input@
                &&& e.kind == if input@.len() < 1 {
                    ErrorKind::Eof
                } else {
                    ErrorKind::MapRes
                }
                &&& input@.len() >= 1 ==> !ImageType::is_code(input@[0])
            },
        },
{
    match le_u8(input) {
        None => Err(Error { input, kind: ErrorKind::Eof }),
        Some((rest, b)) => match image_type_code(b) {
            Ok(t) => Ok((rest, t)),
            Err(_) => Err(Error { input, kind: ErrorKind::MapRes }),
        },
    }
}

/// Parses a one-byte field.
fn byte_field<'a>(input: &'a [u8]) -> (r: Result<(&'a [u8], u8), Error<'a>>)
    ensures
        match r {
            Ok((rest, value)) => {
                &&& input@.len() >= 1
                &&& rest@ == input@.skip(1)
                &&& value == input@[0]
            },
            Err(e) => input@.len() < 1 && e.input@ == input@ && e.kind == ErrorKind::Eof,
        },
{
    match le_u8(input) {
        Some(parsed) => Ok(parsed),
        None => Err(Error { input, kind: ErrorKind::Eof }),
    }
}

/// Parses a two-byte field.
fn word_field<'a>(input: &'a [u8]) -> (r: Result<(&'a [u8], u16), Error<'a>>)
    ensures
        match r {
            Ok((rest, value)) => {
                &&& input@.len() >= 2
                &&& rest@ == input@.skip(2)
                &&& value == le_u16_at(input@, 0)
            },
            Err(e) => input@.len() < 2 && e.input@ == input@ && e.kind == ErrorKind::Eof,
        },
{
    match le_u16(input) {
        Some(parsed) => Ok(parsed),
        None => Err(Error { input, kind: ErrorKind::Eof }),
    }
}

/// Parses a field of `count` bytes.
fn bytes_field<'a>(count: u8, input: &'a [u8]) -> (r: Result<(&'a [u8], &'a [u8]), Error<'a>>)
    ensures
        match r {
            Ok((rest, taken)) => {
                &&& input@.len() >= count
                &&& rest@ == input@.skip(count as int)
                &&& taken@ == input@.take(count as int)
            },
            Err(e) => input@.len() < count && e.input@ == input@ && e.kind == ErrorKind::Eof,
        },
{
    match take(count, input) {
        Some(parsed) => Ok(parsed),
        None => Err(Error { input, kind: ErrorKind::Eof }),
    }
}

/// What is left of `bytes` behind a field of `len` bytes that starts at
/// offset `at`, and how its bytes are numbered.
proof fn lemma_behind_field(bytes: Seq<u8>, at: int, len: int)
    requires
        0 <= at,
        0 <= len,
    ensures
        at + len <= bytes.len() ==> {
            &&& bytes.skip(at).skip(len) == bytes.skip(at + len)
            &&& bytes.skip(at).len() == bytes.len() - at
            &&& forall|i: int| 0 <= i < bytes.len() - at ==> bytes.skip(at)[i] == bytes[at + i]
        },
{
    if at + len <= bytes.len() {
        assert(bytes.skip(at).skip(len) =~= bytes.skip(at + len));
    }
}

/// Parses the header at the start of `input`, and passes over the image
/// identifier that follows it. Gives the header and what is left of the input
/// behind the identifier.
pub fn header<'a>(input: &'a [u8]) -> (r: Result<(&'a [u8], TgaHeader), Error<'a>>)
    ensures
        match r {
            Ok((rest, h)) => {
                &&& failure(input@) is None
                &&& rest@ == input@.skip(encoded_len(input@))
                &&& h == decoded(input@)
            },
            Err(e) => {
                &&& failure(input@) matches Some((at, kind))
                &&& e.input@ == input@.skip(at)
                &&& e.kind == kind
            },
        },
{
    let ghost bytes = input@;
    proof {
        assert(bytes.skip(0) =~= bytes);
        lemma_behind_field(bytes, 0, 1);
        lemma_behind_field(bytes, 1, 1);
        lemma_behind_field(bytes, 2, 1);
        lemma_behind_field(bytes, 3, 2);
        lemma_behind_field(bytes, 5, 2);
        lemma_behind_field(bytes, 7, 1);
        lemma_behind_field(bytes, 8, 2);
        lemma_behind_field(bytes, 10, 2);
        lemma_behind_field(bytes, 12, 2);
        lemma_behind_field(bytes, 14, 2);
        lemma_behind_field(bytes, 16, 1);
        lemma_behind_field(bytes, 17, 1);
    }
    let (input, id_len) = byte_field(input)?;
    let (input, has_color_map) = has_color_map(input)?;
    let (input, image_type) = image_type(input)?;
    let (input, color_map_start) = word_field(input)?;
    let (input, color_map_len) = word_field(input)?;
    let (input, color_map_depth) = byte_field(input)?;
    let (input, x_origin) = word_field(input)?;
    let (input, y_origin) = word_field(input)?;
    let (input, width) = word_field(input)?;
    let (input, height) = word_field(input)?;
    let (input, pixel_depth) = byte_field(input)?;
    let (input, image_descriptor) = byte_field(input)?;
    proof {
        lemma_behind_field(bytes, 18, id_len as int);
    }
    let (input, _image_ident) = bytes_field(id_len, input)?;

    Ok(
        (
            input,
            TgaHeader {
                id_len,
                has_color_map,
                image_type,
                color_map_start,
                color_map_len,
                color_map_depth,
                x_origin,
                y_origin,
                width,
                height,
                pixel_depth,
                image_descriptor,
            },
        ),
    )
}

} // verus!
