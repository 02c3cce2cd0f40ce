use bdf_parser::geometry::{BoundingBox, Coord};
use bdf_parser::glyph::{parse_bitmap, Encoding, Glyph};

fn bitmap_of(text: &str) -> Option<(Vec<Vec<u8>>, usize)> {
    parse_bitmap(text.as_bytes(), 0)
}

#[test]
fn it_parses_bitmap_data() {
    let input = "BITMAP\n7e\nENDCHAR";
    assert_eq!(bitmap_of(input), Some((vec![vec![0x7e]], input.len())));
    let input = "BITMAP\nff\nENDCHAR";
    assert_eq!(bitmap_of(input), Some((vec![vec![0xff]], input.len())));
    let input = "BITMAP\nCCCC\nENDCHAR";
    assert_eq!(bitmap_of(input), Some((vec![vec![0xcc, 0xcc]], input.len())));
    let input = "BITMAP\nffffffff\nENDCHAR";
    assert_eq!(
        bitmap_of(input),
        Some((vec![vec![0xff, 0xff, 0xff, 0xff]], input.len()))
    );
    let input = "BITMAP\nffffffff\naaaaaaaa\nENDCHAR";
    assert_eq!(
        bitmap_of(input),
        Some((
            vec![vec![0xff, 0xff, 0xff, 0xff], vec![0xaa, 0xaa, 0xaa, 0xaa]],
            input.len()
        ))
    );
    let input = "BITMAP\nff\nff\nff\nff\naa\naa\naa\naa\nENDCHAR";
    assert_eq!(
        bitmap_of(input),
        Some((
            vec![
                vec![0xff],
                vec![0xff],
                vec![0xff],
                vec![0xff],
                vec![0xaa],
                vec![0xaa],
                vec![0xaa],
                vec![0xaa]
            ],
            input.len()
        ))
    );
    let input = "BITMAP\n00\n00\n00\n00\n18\n24\n24\n42\n42\n7E\n42\n42\n42\n42\n00\n00\nENDCHAR";
    let rows: Vec<Vec<u8>> = [
        0x00, 0x00, 0x00, 0x00, 0x18, 0x24, 0x24, 0x42, 0x42, 0x7e, 0x42, 0x42, 0x42, 0x42, 0x00,
        0x00,
    ]
    .iter()
    .map(|b| vec![*b])
    .collect();
    assert_eq!(bitmap_of(input), Some((rows, input.len())));
}

#[test]
fn it_parses_a_single_char() {
    let chardata = r#"STARTCHAR ZZZZ
ENCODING 65
SWIDTH 500 0
DWIDTH 8 0
BBX 8 16 0 -2
BITMAP
00
00
00
00
18
24
24
42
42
7E
42
42
42
42
00
00
ENDCHAR"#;

    let rows: Vec<Vec<u8>> = [
        0x00, 0x00, 0x00, 0x00, 0x18, 0x24, 0x24, 0x42, 0x42, 0x7e, 0x42, 0x42, 0x42, 0x42, 0x00,
        0x00,
    ]
    .iter()
    .map(|b| vec![*b])
    .collect();
    assert_eq!(
        Glyph::parse(chardata.as_bytes(), 0),
        Some((
            Glyph {
                name: "ZZZZ".to_string(),
                encoding: Encoding::Standard('A' as u32),
                bitmap: rows,
                bounding_box: BoundingBox::new(Coord::new(0, -2), Coord::new(8, 16)),
                scalable_width: Some(Coord::new(500, 0)),
                device_width: Some(Coord::new(8, 0)),
            },
            chardata.len()
        ))
    );
}

#[test]
fn it_parses_negative_encodings() {
    let chardata = r#"STARTCHAR 000
ENCODING -1
SWIDTH 432 0
DWIDTH 6 0
BBX 0 0 0 0
BITMAP
ENDCHAR"#;

    assert_eq!(
        Glyph::parse(chardata.as_bytes(), 0),
        Some((
            Glyph {
                bitmap: vec![],
                bounding_box: BoundingBox::new(Coord::zero(), Coord::zero()),
                encoding: Encoding::NonStandard,
                name: "000".to_string(),
                scalable_width: Some(Coord::new(432, 0)),
                device_width: Some(Coord::new(6, 0)),
            },
            chardata.len()
        ))
    );
}

#[test]
fn it_parses_chars_with_no_bitmap() {
    let chardata = r#"STARTCHAR 000
ENCODING 0
SWIDTH 432 0
DWIDTH 6 0
BBX 0 0 0 0
BITMAP
ENDCHAR"#;

    assert_eq!(
        Glyph::parse(chardata.as_bytes(), 0),
        Some((
            Glyph {
                bitmap: vec![],
                bounding_box: BoundingBox::new(Coord::zero(), Coord::zero()),
                encoding: Encoding::Standard(0),
                name: "000".to_string(),
                scalable_width: Some(Coord::new(432, 0)),
                device_width: Some(Coord::new(6, 0)),
            },
            chardata.len()
        ))
    );
}

#[test]
fn rows_stay_apart_whatever_their_width() {
    // Three-byte rows: a fixed four-byte window would merge them.
    let input = "BITMAP\nAABBCC\n112233\nENDCHAR\n";
    assert_eq!(
        bitmap_of(input),
        Some((vec![vec![0xaa, 0xbb, 0xcc], vec![0x11, 0x22, 0x33]], input.len() - 1))
    );
}

#[test]
fn row_count_follows_bbx_height_whatever_the_padding() {
    let chardata = "STARTCHAR pad\nENCODING 66\nBBX 4 3 0 0\nBITMAP\nF0\nA000\n5000000000\nENDCHAR\n";
    let (glyph, _) = Glyph::parse(chardata.as_bytes(), 0).unwrap();
    assert_eq!(glyph.bitmap.len(), glyph.bounding_box.size.y as usize);
    assert_eq!(glyph.bitmap, vec![vec![0xf0], vec![0xa0, 0x00], vec![0x50, 0, 0, 0, 0]]);
}

#[test]
fn odd_digit_rows_and_missing_endchar_are_rejected() {
    assert_eq!(bitmap_of("BITMAP\nFFF\nENDCHAR"), None);
    assert_eq!(bitmap_of("BITMAP\nFG\nENDCHAR"), None);
    assert_eq!(bitmap_of("BITMAP\nFF\n"), None);
}

#[test]
fn encodings_outside_unicode_scalars_are_non_standard() {
    assert_eq!(Encoding::from_code(-1), Encoding::NonStandard);
    assert_eq!(Encoding::from_code(i32::MIN), Encoding::NonStandard);
    assert_eq!(Encoding::from_code(0xd800), Encoding::NonStandard);
    assert_eq!(Encoding::from_code(0x110000), Encoding::NonStandard);
    assert_eq!(Encoding::from_code(0x10ffff), Encoding::Standard(0x10ffff));
    assert_eq!(Encoding::from_code(64), Encoding::Standard(64));
}

#[test]
fn encoding_minus_one_in_a_glyph_is_non_standard() {
    let chardata = "STARTCHAR x\nENCODING -1\nBBX 1 1 0 0\nBITMAP\n80\nENDCHAR\n";
    let (glyph, _) = Glyph::parse(chardata.as_bytes(), 0).unwrap();
    assert_eq!(glyph.encoding, Encoding::NonStandard);
}

#[test]
fn glyph_names_with_invalid_utf8_get_replacement_characters() {
    let chardata: &[u8] = b"STARTCHAR caf\xff\nENCODING 1\nBBX 0 0 0 0\nBITMAP\nENDCHAR";
    let (glyph, _) = Glyph::parse(chardata, 0).unwrap();
    assert_eq!(glyph.name, "caf\u{fffd}");
}

#[test]
fn glyph_with_an_out_of_range_encoding_is_rejected() {
    let chardata = "STARTCHAR x\nENCODING 99999999999\nBBX 0 0 0 0\nBITMAP\nENDCHAR";
    assert_eq!(Glyph::parse(chardata.as_bytes(), 0), None);
}
