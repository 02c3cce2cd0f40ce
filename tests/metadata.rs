use bdf_parser::geometry::{BoundingBox, Coord};
use bdf_parser::metadata::{metadata_version, Metadata};

#[test]
fn it_parses_the_font_version() {
    let input: &[u8] = b"STARTFONT 2.1\n";
    let (version, end) = metadata_version(input, 0).unwrap();
    assert_eq!((end, version.parse::<f32>()), (input.len(), Ok(2.1f32)));

    // Some fonts are a bit overzealous with their whitespace
    let input: &[u8] = b"STARTFONT   2.1\n";
    let (version, end) = metadata_version(input, 0).unwrap();
    assert_eq!((end, version.parse::<f32>()), (input.len(), Ok(2.1f32)));
}

#[test]
fn it_parses_header() {
    let input: &[u8] = br#"STARTFONT 2.1
FONT "test font"
SIZE 16 75 75
FONTBOUNDINGBOX 16 24 0 0"#;

    assert_eq!(
        Metadata::parse(input, 0),
        Some((
            Metadata {
                version: "2.1".to_string(),
                name: String::from("\"test font\""),
                point_size: 16,
                resolution: (75, 75),
                bounding_box: BoundingBox::new(Coord::zero(), Coord::new(16, 24)),
            },
            input.len()
        ))
    );
}

#[test]
fn header_allows_comments_between_statements() {
    let input: &[u8] = b"COMMENT made by hand\nSTARTFONT 2.2\nCOMMENT name next\nFONT f\nSIZE 8 96 96\nFONTBOUNDINGBOX 5 7 -1 -2\n";
    let (metadata, end) = Metadata::parse(input, 0).unwrap();
    assert_eq!(end, input.len());
    assert_eq!(metadata.version, "2.2");
    assert_eq!(metadata.name, "f");
    assert_eq!(metadata.bounding_box, BoundingBox::new(Coord::new(-1, -2), Coord::new(5, 7)));
}

#[test]
fn header_out_of_order_is_rejected() {
    let input: &[u8] = b"STARTFONT 2.1\nSIZE 16 75 75\nFONT f\nFONTBOUNDINGBOX 16 24 0 0\n";
    assert_eq!(Metadata::parse(input, 0), None);
}

#[test]
fn header_with_a_negative_box_size_is_rejected() {
    let input: &[u8] = b"STARTFONT 2.1\nFONT f\nSIZE 16 75 75\nFONTBOUNDINGBOX -16 24 0 0\n";
    assert_eq!(Metadata::parse(input, 0), None);
}

#[test]
fn header_skips_a_comment_holding_a_lone_carriage_return() {
    let plain: &[u8] = b"STARTFONT 2.1\nFONT f\nSIZE 16 75 75\nFONTBOUNDINGBOX 16 24 0 0\n";
    let commented: &[u8] =
        b"STARTFONT 2.1\nCOMMENT a\rb\nFONT f\nSIZE 16 75 75\nFONTBOUNDINGBOX 16 24 0 0\n";
    let (m1, _) = Metadata::parse(plain, 0).unwrap();
    let (m2, end) = Metadata::parse(commented, 0).unwrap();
    assert_eq!(m1, m2);
    assert_eq!(end, commented.len());
}
