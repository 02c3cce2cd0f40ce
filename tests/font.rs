use bdf_parser::geometry::{BoundingBox, Coord};
use bdf_parser::glyph::{Encoding, Glyph};
use bdf_parser::metadata::Metadata;
use bdf_parser::properties::{PropertyId, PropertyValue};
use bdf_parser::{parse_font, BDFFont, BDFParser, ParserError};

fn bbox(w: i32, h: i32, x: i32, y: i32) -> BoundingBox {
    BoundingBox::new(Coord::new(x, y), Coord::new(w, h))
}

fn glyph(name: &str, code: u32, rows: Vec<Vec<u8>>, bounding_box: BoundingBox) -> Glyph {
    Glyph {
        name: name.to_string(),
        encoding: Encoding::Standard(code),
        bounding_box,
        bitmap: rows,
        scalable_width: None,
        device_width: Some(Coord::new(8, 0)),
    }
}

fn check_iconic_properties(font: &BDFFont) {
    assert_eq!(font.properties.len(), 3);
    assert_eq!(
        font.properties.try_get(PropertyId::Copyright),
        Ok(&PropertyValue::Text(
            "https://github.com/iconic/open-iconic, SIL OPEN FONT LICENSE".to_string()
        ))
    );
    assert_eq!(font.properties.try_get(PropertyId::FontAscent), Ok(&PropertyValue::Int(0)));
    assert_eq!(font.properties.try_get(PropertyId::FontDescent), Ok(&PropertyValue::Int(0)));
}

#[test]
fn it_parses_a_font_file() {
    let chardata = r#"STARTFONT 2.1
FONT "test font"
SIZE 16 75 75
FONTBOUNDINGBOX 16 24 0 0
STARTPROPERTIES 3
COPYRIGHT "https://github.com/iconic/open-iconic, SIL OPEN FONT LICENSE"
FONT_ASCENT 0
FONT_DESCENT 0
ENDPROPERTIES
STARTCHAR 000
ENCODING 64
DWIDTH 8 0
BBX 8 8 0 0
BITMAP
1f
01
ENDCHAR
STARTCHAR 000
ENCODING 64
DWIDTH 8 0
BBX 8 8 0 0
BITMAP
2f
02
ENDCHAR
ENDFONT
"#;

    let font = BDFParser::from_str(chardata).parse().unwrap();

    assert_eq!(
        font.metadata,
        Metadata {
            version: "2.1".to_string(),
            name: String::from("\"test font\""),
            point_size: 16,
            resolution: (75, 75),
            bounding_box: bbox(16, 24, 0, 0),
        }
    );
    assert_eq!(
        font.glyphs,
        vec![
            glyph("000", 64, vec![vec![0x1f], vec![0x01]], bbox(8, 8, 0, 0)),
            glyph("000", 64, vec![vec![0x2f], vec![0x02]], bbox(8, 8, 0, 0)),
        ]
    );
    check_iconic_properties(&font);
}

#[test]
fn it_parses_optional_endfont_tag() {
    let chardata = r#"STARTFONT 2.1
FONT "open_iconic_all_1x"
SIZE 16 75 75
FONTBOUNDINGBOX 16 16 0 0
STARTPROPERTIES 3
COPYRIGHT "https://github.com/iconic/open-iconic, SIL OPEN FONT LICENSE"
FONT_ASCENT 0
FONT_DESCENT 0
ENDPROPERTIES
STARTCHAR 000
ENCODING 64
DWIDTH 8 0
BBX 8 8 0 0
BITMAP
1f
01
ENDCHAR
STARTCHAR 000
ENCODING 64
DWIDTH 8 0
BBX 8 8 0 0
BITMAP
2f
02
ENDCHAR
"#;

    let font = BDFParser::from_str(chardata).parse().unwrap();

    assert_eq!(
        font.metadata,
        Metadata {
            version: "2.1".to_string(),
            name: String::from("\"open_iconic_all_1x\""),
            point_size: 16,
            resolution: (75, 75),
            bounding_box: bbox(16, 16, 0, 0),
        }
    );
    assert_eq!(
        font.glyphs,
        vec![
            glyph("000", 64, vec![vec![0x1f], vec![0x01]], bbox(8, 8, 0, 0)),
            glyph("000", 64, vec![vec![0x2f], vec![0x02]], bbox(8, 8, 0, 0)),
        ]
    );
    check_iconic_properties(&font);
}

#[test]
fn it_handles_windows_line_endings() {
    let windows_line_endings = "STARTFONT 2.1\r\nFONT \"windows_test\"\r\nSIZE 10 96 96\r\nFONTBOUNDINGBOX 8 16 0 -4\r\nCHARS 256\r\nSTARTCHAR 0\r\nENCODING 0\r\nSWIDTH 600 0\r\nDWIDTH 8 0\r\nBBX 8 16 0 -4\r\nBITMAP\r\nD5\r\nENDCHAR\r\nENDFONT\r\n";
    let font = BDFParser::from_str(windows_line_endings).parse().unwrap();

    assert_eq!(
        font.metadata,
        Metadata {
            version: "2.1".to_string(),
            name: String::from("\"windows_test\""),
            point_size: 10,
            resolution: (96, 96),
            bounding_box: bbox(8, 16, 0, -4),
        }
    );
    assert_eq!(
        font.glyphs,
        vec![Glyph {
            name: "0".to_string(),
            encoding: Encoding::Standard(0),
            bounding_box: bbox(8, 16, 0, -4),
            bitmap: vec![vec![0xd5]],
            scalable_width: Some(Coord::new(600, 0)),
            device_width: Some(Coord::new(8, 0)),
        }]
    );
    assert_eq!(font.properties.len(), 0);
}

const SMALL: &str = "STARTFONT 2.1\nFONT \"t\"\nSIZE 16 75 75\nFONTBOUNDINGBOX 16 24 0 0\nSTARTCHAR C\nENCODING 64\nDWIDTH 8 0\nBBX 8 8 0 0\nBITMAP\n1f\n01\nENDCHAR\nENDFONT\n";

#[test]
fn a_small_font_has_one_glyph_with_two_rows() {
    let font = parse_font(SMALL.as_bytes()).unwrap();
    assert_eq!(font.glyphs.len(), 1);
    assert_eq!(font.glyphs[0].bitmap, vec![vec![0x1f], vec![0x01]]);
    assert_eq!(font.glyphs[0].encoding, Encoding::Standard(64));
    assert_eq!(font.glyphs[0].name, "C");
}

#[test]
fn windows_and_unix_line_endings_give_the_same_font() {
    let windows = SMALL.replace('\n', "\r\n");
    assert_eq!(parse_font(windows.as_bytes()), parse_font(SMALL.as_bytes()));
    let with_properties = "STARTFONT 2.1\nCOMMENT c\nFONT f\nSIZE 1 2 3\nFONTBOUNDINGBOX 1 1 0 0\nSTARTPROPERTIES 1\nCOMMENT inner\nNOTICE \"n\"\nENDPROPERTIES\nCHARS 1\nSTARTCHAR a\nENCODING 97\nSWIDTH 1 0\nBBX 1 1 0 0\nBITMAP\n80\nENDCHAR\n";
    let windows = with_properties.replace('\n', "\r\n");
    let unix = parse_font(with_properties.as_bytes());
    assert!(unix.is_ok());
    assert_eq!(parse_font(windows.as_bytes()), unix);
}

#[test]
fn trailing_text_after_endfont_is_an_error() {
    let text = format!("{}garbage\n", SMALL);
    assert_eq!(parse_font(text.as_bytes()), Err(ParserError::EndOfFile));
    let text = format!("{}\n  ENDFONT\n", SMALL);
    assert_eq!(parse_font(text.as_bytes()), Err(ParserError::EndOfFile));
}

#[test]
fn trailing_whitespace_after_endfont_is_accepted() {
    let text = format!("{} \t\n\r\n\n", SMALL);
    assert_eq!(parse_font(text.as_bytes()), parse_font(SMALL.as_bytes()));
    assert!(parse_font(text.as_bytes()).is_ok());
}

#[test]
fn endfont_may_be_left_out() {
    let without = SMALL.strip_suffix("ENDFONT\n").unwrap();
    assert!(without.ends_with("ENDCHAR\n"));
    assert_eq!(parse_font(without.as_bytes()), parse_font(SMALL.as_bytes()));
    let without = SMALL.strip_suffix("\nENDFONT\n").unwrap();
    assert!(without.ends_with("ENDCHAR"));
    assert_eq!(parse_font(without.as_bytes()), parse_font(SMALL.as_bytes()));
}

#[test]
fn each_section_reports_its_own_error() {
    assert_eq!(parse_font(b""), Err(ParserError::Metadata));
    assert_eq!(
        parse_font(b"STARTFONT 2.1\nSIZE 16 75 75\n"),
        Err(ParserError::Metadata)
    );
    let header = "STARTFONT 2.1\nFONT f\nSIZE 16 75 75\nFONTBOUNDINGBOX 8 8 0 0\n";
    let text = format!("{}STARTPROPERTIES 1\nFOO 1\n", header);
    assert_eq!(parse_font(text.as_bytes()), Err(ParserError::Properties));
    let text = format!("{}CHARS many\n", header);
    assert_eq!(parse_font(text.as_bytes()), Err(ParserError::Glyphs));
    let text = format!("{}STARTCHAR a\nENCODING 1\nBBX 8 1 0 0\nBITMAP\nFFF\nENDCHAR\n", header);
    assert_eq!(parse_font(text.as_bytes()), Err(ParserError::Glyphs));
    let text = format!("{}BOGUS\n", header);
    assert_eq!(parse_font(text.as_bytes()), Err(ParserError::EndOfFile));
    assert!(parse_font(header.as_bytes()).is_ok());
}

#[test]
fn glyphs_keep_their_order_and_duplicate_encodings() {
    let text = "STARTFONT 2.1\nFONT f\nSIZE 1 1 1\nFONTBOUNDINGBOX 8 1 0 0\nSTARTCHAR b\nENCODING 5\nBBX 8 1 0 0\nBITMAP\n01\nENDCHAR\nSTARTCHAR a\nENCODING 5\nBBX 8 1 0 0\nBITMAP\n02\nENDCHAR\n";
    let font = parse_font(text.as_bytes()).unwrap();
    let names: Vec<&str> = font.glyphs.iter().map(|g| g.name.as_str()).collect();
    assert_eq!(names, vec!["b", "a"]);
    assert_eq!(font.glyphs[0].encoding, font.glyphs[1].encoding);
}
