use embedded_graphics::tga::header::{
    color_map_flag, header, image_type_code, ImageType, TgaHeader, HEADER_LEN,
};
use embedded_graphics::tga::parse_error::{Error, ErrorKind, ParseError};

fn sample() -> Vec<u8> {
    vec![
        3, // identifier length
        1, // colour map flag
        10, // image type
        0x01, 0x02, // colour map origin
        0x03, 0x04, // colour map length
        24, // colour map depth
        0x05, 0x06, // x origin
        0x07, 0x08, // y origin
        0x40, 0x01, // width
        0xf0, 0x00, // height
        32, // pixel depth
        0x28, // image descriptor
        b'a', b'b', b'c', // identifier
        0xde, 0xad, // image data
    ]
}

#[test]
fn header_is_eighteen_bytes() {
    assert_eq!(HEADER_LEN, 18);
}

#[test]
fn header_is_read_field_by_field() {
    let input = sample();
    let (rest, parsed) = header(&input).unwrap();
    assert_eq!(rest, &[0xde, 0xad]);
    assert_eq!(
        parsed,
        TgaHeader {
            id_len: 3,
            has_color_map: true,
            image_type: ImageType::RleTruecolor,
            color_map_start: 0x0201,
            color_map_len: 0x0403,
            color_map_depth: 24,
            x_origin: 0x0605,
            y_origin: 0x0807,
            width: 320,
            height: 240,
            pixel_depth: 32,
            image_descriptor: 0x28,
        }
    );
}

#[test]
fn header_without_identifier_and_data() {
    let mut input = sample();
    input[0] = 0;
    input[1] = 0;
    input[2] = 0;
    input.truncate(18);
    let (rest, parsed) = header(&input).unwrap();
    assert!(rest.is_empty());
    assert_eq!(parsed.id_len, 0);
    assert!(!parsed.has_color_map);
    assert_eq!(parsed.image_type, ImageType::Empty);
}

#[test]
fn largest_words_and_longest_identifier() {
    let mut input = vec![255u8, 1, 11];
    input.extend([0xff; 15]);
    input.extend([7; 255]);
    input.push(9);
    let (rest, parsed) = header(&input).unwrap();
    assert_eq!(rest, &[9]);
    assert_eq!(parsed.id_len, 255);
    assert_eq!(parsed.image_type, ImageType::RleMonochrome);
    assert_eq!(parsed.color_map_start, 0xffff);
    assert_eq!(parsed.width, 0xffff);
    assert_eq!(parsed.height, 0xffff);
    assert_eq!(parsed.image_descriptor, 0xff);
}

#[test]
fn input_that_ends_early_fails_at_the_field_that_is_cut_short() {
    let input = sample();
    let starts = [0, 1, 2, 3, 3, 5, 5, 7, 8, 8, 10, 10, 12, 12, 14, 14, 16, 17, 18, 18, 18];
    for len in 0..21 {
        let cut = &input[..len];
        assert_eq!(
            header(cut),
            Err(Error { input: &input[starts[len]..len], kind: ErrorKind::Eof })
        );
    }
    assert!(header(&input[..21]).is_ok());
}

#[test]
fn unknown_colour_map_flag_fails_at_its_offset() {
    let mut input = sample();
    for flag in [2u8, 3, 128, 255] {
        input[1] = flag;
        assert_eq!(header(&input), Err(Error { input: &input[1..], kind: ErrorKind::MapRes }));
        // The flag is looked at before the rest of the header is asked for.
        assert_eq!(
            header(&input[..2]),
            Err(Error { input: &input[1..2], kind: ErrorKind::MapRes })
        );
    }
}

#[test]
fn unknown_image_type_fails_at_its_offset() {
    let mut input = sample();
    for code in [4u8, 5, 8, 12, 200, 255] {
        input[2] = code;
        assert_eq!(header(&input), Err(Error { input: &input[2..], kind: ErrorKind::MapRes }));
        assert_eq!(
            header(&input[..3]),
            Err(Error { input: &input[2..3], kind: ErrorKind::MapRes })
        );
    }
    // An unknown flag comes before an unknown type.
    input[1] = 9;
    assert_eq!(header(&input), Err(Error { input: &input[1..], kind: ErrorKind::MapRes }));
}

#[test]
fn every_image_type_has_its_code() {
    let known = [
        (0u8, ImageType::Empty),
        (1, ImageType::ColorMapped),
        (2, ImageType::Truecolor),
        (3, ImageType::Monochrome),
        (9, ImageType::RleColorMapped),
        (10, ImageType::RleTruecolor),
        (11, ImageType::RleMonochrome),
    ];
    for code in 0..=255u8 {
        let expected = match known.iter().find(|(c, _)| *c == code) {
            Some((_, image_type)) => Ok(*image_type),
            None => Err(ParseError::UnknownImageType(code)),
        };
        assert_eq!(image_type_code(code), expected);
        let mut input = sample();
        input[2] = code;
        assert_eq!(header(&input).ok().map(|(_, h)| h.image_type), expected.ok());
    }
}

#[test]
fn colour_map_flag_is_zero_or_one() {
    assert_eq!(color_map_flag(0), Ok(false));
    assert_eq!(color_map_flag(1), Ok(true));
    for flag in 2..=255u8 {
        assert_eq!(color_map_flag(flag), Err(ParseError::UnknownColorMap(flag)));
    }
}
