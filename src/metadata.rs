//! The header of a font: `STARTFONT`, `FONT`, `SIZE` and `FONTBOUNDINGBOX`,
//! in that order, with comment lines allowed before each of them.
use vstd::prelude::*;

use crate::geometry::BoundingBox;
use crate::helpers::{
    at, bounding_box_statement, is_digit, is_space, lemma_span, parse_bounding_box_statement,
    parse_text_statement, parse_u32, parse_i32, blank_and_comment_lines, scan, skip_comments, span,
    statement, statement_end, statement_end_at, statement_start, text_between, text_between_at,
    text_statement, u32_at, i32_at, viewed, ByteClass, Keyword, DOT, SPACE, TAB,
};

verus! {

/// The header of a font.
#[derive(Debug, PartialEq)]
pub struct Metadata {
    /// The format version, as written (`2.1`).
    pub version: String,
    /// The font's name: the rest of the `FONT` line, as written.
    pub name: String,
    pub point_size: i32,
    /// Horizontal and vertical resolution, in dots per inch.
    pub resolution: (u32, u32),
    pub bounding_box: BoundingBox,
}

/// What a [`Metadata`] holds, with its texts as character sequences.
pub struct MetadataView {
    pub version: Seq<char>,
    pub name: Seq<char>,
    pub point_size: i32,
    pub resolution: (u32, u32),
    pub bounding_box: BoundingBox,
}

impl View for Metadata {
    type V = MetadataView;

    open spec fn view(&self) -> MetadataView {
        MetadataView {
            version: self.version@,
            name: self.name@,
            point_size: self.point_size,
            resolution: self.resolution,
            bounding_box: self.bounding_box,
        }
    }
}

/// Where a version number at `p` ends: one or more digits, then optionally a
/// dot and one or more digits.
pub open spec fn version_end(s: Seq<u8>, p: int) -> Option<int> {
    let a = span(s, p, ByteClass::Digit);
    if a == p {
        None
    } else if a + 1 < s.len() && s[a] == DOT && is_digit(s[a + 1]) {
        Some(span(s, a + 1, ByteClass::Digit))
    } else {
        Some(a)
    }
}

/// `STARTFONT <version>`: the version's text.
pub open spec fn version_statement(s: Seq<u8>, p: int) -> Option<(Seq<char>, int)> {
    match statement_start(s, p, Keyword::StartFont) {
        None => None,
        Some(q) => match version_end(s, q) {
            None => None,
            Some(e) => Some((text_between(s, q, e), statement_end(s, e))),
        },
    }
}

/// `SIZE <point_size> <resolution_x> <resolution_y>`.
pub open spec fn size_statement(s: Seq<u8>, p: int) -> Option<((i32, (u32, u32)), int)> {
    match statement_start(s, p, Keyword::Size) {
        None => None,
        Some(q) => match i32_at(s, q) {
            None => None,
            Some((point_size, a)) => if 0 <= a < s.len() && is_space(s[a]) {
                match u32_at(s, span(s, a, ByteClass::Space)) {
                    None => None,
                    Some((x, b)) => if 0 <= b < s.len() && is_space(s[b]) {
                        match u32_at(s, span(s, b, ByteClass::Space)) {
                            None => None,
                            Some((y, e)) => Some(((point_size, (x, y)), statement_end(s, e))),
                        }
                    } else {
                        None
                    },
                }
            } else {
                None
            },
        },
    }
}

/// The header at `p`, and where it ends after any whitespace that follows.
pub open spec fn metadata_at(s: Seq<u8>, p: int) -> Option<(MetadataView, int)> {
    match version_statement(s, skip_comments(s, p)) {
        None => None,
        Some((version, q1)) => match text_statement(s, skip_comments(s, q1), Keyword::Font) {
            None => None,
            Some((name, q2)) => match size_statement(s, skip_comments(s, q2)) {
                None => None,
                Some(((point_size, resolution), q3)) => match bounding_box_statement(
                    s,
                    skip_comments(s, q3),
                    Keyword::FontBoundingBox,
                ) {
                    None => None,
                    Some((bounding_box, q4)) => Some((
                        MetadataView { version, name, point_size, resolution, bounding_box },
                        span(s, q4, ByteClass::Whitespace),
                    )),
                },
            },
        },
    }
}

/// Reads `STARTFONT <version>` at `pos`: the version as written.
pub fn metadata_version(input: &[u8], pos: usize) -> (r: Option<(String, usize)>)
    requires
        pos <= input@.len(),
    ensures
        match version_statement(input@, pos as int) {
            None => r is None,
            Some((t, e)) => r matches Some((text, q)) && text@ == t && q as int == e,
        },
        r matches Some((_, q)) ==> pos < q <= input@.len(),
{
    let q = match statement(input, pos, Keyword::StartFont) {
        None => return None,
        Some(q) => q,
    };
    proof {
        lemma_span(input@, q as int, ByteClass::Digit);
    }
    let a = scan(input, q, ByteClass::Digit);
    if a == q {
        return None;
    }
    let e = if input.len() - a >= 2 && input[a] == DOT && 0x30 <= input[a + 1] && input[a + 1]
        <= 0x39 {
        scan(input, a + 1, ByteClass::Digit)
    } else {
        a
    };
    Some((text_between_at(input, q, e), statement_end_at(input, e)))
}

/// Reads `SIZE <point_size> <resolution_x> <resolution_y>` at `pos`.
pub fn metadata_size(input: &[u8], pos: usize) -> (r: Option<((i32, (u32, u32)), usize)>)
    requires
        pos <= input@.len(),
    ensures
        at(r) == size_statement(input@, pos as int),
        r matches Some((_, q)) ==> pos < q <= input@.len(),
{
    let q = match statement(input, pos, Keyword::Size) {
        None => return None,
        Some(q) => q,
    };
    let (point_size, a) = match parse_i32(input, q) {
        None => return None,
        Some(v) => v,
    };
    if !(a < input.len() && (input[a] == SPACE || input[a] == TAB)) {
        return None;
    }
    let (x, b) = match parse_u32(input, scan(input, a, ByteClass::Space)) {
        None => return None,
        Some(v) => v,
    };
    if !(b < input.len() && (input[b] == SPACE || input[b] == TAB)) {
        return None;
    }
    let (y, e) = match parse_u32(input, scan(input, b, ByteClass::Space)) {
        None => return None,
        Some(v) => v,
    };
    Some(((point_size, (x, y)), statement_end_at(input, e)))
}

impl Metadata {
    /// Reads the header at `pos`; on success also skips the whitespace after it.
    pub fn parse(input: &[u8], pos: usize) -> (r: Option<(Metadata, usize)>)
        requires
            pos <= input@.len(),
        ensures
            viewed(r) == metadata_at(input@, pos as int),
            r matches Some((m, q)) ==> pos <= q <= input@.len() && m.bounding_box.valid(),
    {
        let (_, q0) = blank_and_comment_lines(input, pos);
        let (version, q1) = match metadata_version(input, q0) {
            None => return None,
            Some(v) => v,
        };
        let (_, q1) = blank_and_comment_lines(input, q1);
        let (name, q2) = match parse_text_statement(input, q1, Keyword::Font) {
            None => return None,
            Some(v) => v,
        };
        let (_, q2) = blank_and_comment_lines(input, q2);
        let ((point_size, resolution), q3) = match metadata_size(input, q2) {
            None => return None,
            Some(v) => v,
        };
        let (_, q3) = blank_and_comment_lines(input, q3);
        let (bounding_box, q4) = match parse_bounding_box_statement(
            input,
            q3,
            Keyword::FontBoundingBox,
        ) {
            None => return None,
            Some(v) => v,
        };
        let end = scan(input, q4, ByteClass::Whitespace);
        Some((Metadata { version, name, point_size, resolution, bounding_box }, end))
    }
}

} // verus!
