//! Glyph blocks: `STARTCHAR` to `ENDCHAR`, with the encoding, the optional
//! widths, the bounding box and the bitmap, one entry per bitmap row.
use vstd::prelude::*;

use crate::geometry::{BoundingBox, Coord};
use crate::helpers::{
    bounding_box_statement, coord_statement, has_keyword, int_statement, is_digit, is_hex_digit,
    keyword_at, lemma_span, lemma_span_exact, line_ending, line_ending_len, parse_bounding_box_statement,
    parse_coord_statement, parse_int_statement, parse_text_statement, scan, span,
    statement_end, statement_end_at, text_statement, ByteClass, Keyword, LF,
};

verus! {

/// The character code of a glyph.
#[derive(Clone, Copy, PartialEq, Eq, Debug, Structural)]
pub enum Encoding {
    /// A Unicode scalar value.
    Standard(u32),
    /// A negative code, or one that is no Unicode scalar value.
    NonStandard,
}

/// The encoding that the code of an `ENCODING` statement stands for.
pub open spec fn encoding_of(code: i32) -> Encoding {
    if 0 <= code <= 0x10ffff && !(0xd800 <= code <= 0xdfff) {
        Encoding::Standard(code as u32)
    } else {
        Encoding::NonStandard
    }
}

impl Encoding {
    pub fn from_code(code: i32) -> (r: Encoding)
        ensures
            r == encoding_of(code),
            code < 0 ==> r == Encoding::NonStandard,
    {
        if 0 <= code && code <= 0x10ffff && !(0xd800 <= code && code <= 0xdfff) {
            Encoding::Standard(code as u32)
        } else {
            Encoding::NonStandard
        }
    }
}

/// The value of a hexadecimal digit.
pub open spec fn hex_value(b: u8) -> int {
    if is_digit(b) {
        b - 0x30
    } else if 0x41 <= b <= 0x46 {
        b - 0x41 + 10
    } else {
        b - 0x61 + 10
    }
}

/// The bytes that a row of hexadecimal digits spells, two digits to a byte,
/// the most significant digit first.
pub open spec fn hex_bytes(d: Seq<u8>) -> Seq<u8> {
    Seq::new(d.len() / 2, |i: int| (hex_value(d[2 * i]) * 16 + hex_value(d[2 * i + 1])) as u8)
}

fn hex_digit_value(b: u8) -> (r: u8)
    requires
        is_hex_digit(b),
    ensures
        r as int == hex_value(b),
        r < 16,
{
    if b <= 0x39 {
        b - 0x30
    } else if b <= 0x46 {
        b - 0x41 + 10
    } else {
        b - 0x61 + 10
    }
}

/// Decodes the hexadecimal digits from `start` to `end`.
fn decode_hex_row(input: &[u8], start: usize, end: usize) -> (r: Vec<u8>)
    requires
        start <= end <= input@.len(),
        (end - start) % 2 == 0,
        forall|i: int| start <= i < end ==> is_hex_digit(#[trigger] input@[i]),
    ensures
        r@ == hex_bytes(input@.subrange(start as int, end as int)),
{
    let ghost d = input@.subrange(start as int, end as int);
    let mut out: Vec<u8> = Vec::new();
    let mut i: usize = start;
    while i < end
        invariant
            start <= i <= end,
            end <= input@.len(),
            (end - start) % 2 == 0,
            (i - start) % 2 == 0,
            forall|j: int| start <= j < end ==> is_hex_digit(#[trigger] input@[j]),
            d == input@.subrange(start as int, end as int),
            out@.len() == (i - start) / 2,
            forall|j: int| 0 <= j < out@.len() ==> out@[j] == hex_bytes(d)[j],
        decreases end - i,
    {
        let hi = hex_digit_value(input[i]);
        let lo = hex_digit_value(input[i + 1]);
        proof {
            let j = (i - start) / 2;
            assert(d[2 * j] == input@[i as int]);
            assert(d[2 * j + 1] == input@[i + 1]);
        }
        out.push(hi * 16 + lo);
        i = i + 2;
    }
    assert(out@ =~= hex_bytes(d));
    out
}

/// One bitmap row at `p`: an even number of hexadecimal digits, at least two,
/// then optional spaces and a line terminator.
pub open spec fn row_at(s: Seq<u8>, p: int) -> Option<(Seq<u8>, int)> {
    let e = span(s, p, ByteClass::HexDigit);
    let t = span(s, e, ByteClass::Space);
    if p < e && (e - p) % 2 == 0 && line_ending_len(s, t) > 0 {
        Some((hex_bytes(s.subrange(p, e)), t + line_ending_len(s, t)))
    } else {
        None
    }
}

/// The rows from `p` up to `ENDCHAR`, appended to `acc`, and where `ENDCHAR` ends.
pub open spec fn rows_from(s: Seq<u8>, p: int, acc: Seq<Seq<u8>>) -> Option<(Seq<Seq<u8>>, int)>
    decreases s.len() - p,
{
    let a = span(s, p, ByteClass::Whitespace);
    if has_keyword(s, a, Keyword::EndChar) {
        Some((acc, a + Keyword::EndChar.text().len()))
    } else {
        match row_at(s, a) {
            None => None,
            Some((row, q)) => if p < q <= s.len() {
                rows_from(s, q, acc.push(row))
            } else {
                None
            },
        }
    }
}

/// `BITMAP` at `p`, the end of its line, then the rows up to `ENDCHAR`.
pub open spec fn bitmap_at(s: Seq<u8>, p: int) -> Option<(Seq<Seq<u8>>, int)> {
    if has_keyword(s, p, Keyword::Bitmap) {
        rows_from(s, statement_end(s, p + Keyword::Bitmap.text().len()), Seq::empty())
    } else {
        None
    }
}

/// The rows of a bitmap as byte sequences.
pub open spec fn rows_view(rows: Seq<Vec<u8>>) -> Seq<Seq<u8>> {
    rows.map_values(|row: Vec<u8>| row@)
}

/// Reads one bitmap row at `pos`.
fn parse_row(input: &[u8], pos: usize) -> (r: Option<(Vec<u8>, usize)>)
    requires
        pos <= input@.len(),
    ensures
        match row_at(input@, pos as int) {
            None => r is None,
            Some((row, e)) => r matches Some((v, q)) && v@ == row && q as int == e,
        },
        r matches Some((_, q)) ==> pos < q <= input@.len(),
{
    proof {
        lemma_span(input@, pos as int, ByteClass::HexDigit);
        assert(input@.len() == input.len());
    }
    let e = scan(input, pos, ByteClass::HexDigit);
    proof {
        lemma_span(input@, e as int, ByteClass::Space);
    }
    let t = scan(input, e, ByteClass::Space);
    let n = line_ending(input, t);
    if pos < e && (e - pos) % 2 == 0 && n > 0 {
        Some((decode_hex_row(input, pos, e), t + n))
    } else {
        None
    }
}

/// Reads `BITMAP` at `pos` and the rows after it, up to and including `ENDCHAR`.
pub fn parse_bitmap(input: &[u8], pos: usize) -> (r: Option<(Vec<Vec<u8>>, usize)>)
    requires
        pos <= input@.len(),
    ensures
        match bitmap_at(input@, pos as int) {
            None => r is None,
            Some((rows, e)) => r matches Some((v, q)) && rows_view(v@) == rows && q as int == e,
        },
        r matches Some((_, q)) ==> pos < q <= input@.len(),
{
    proof {
        assert(input@.len() == input.len());
        reveal_strlit("BITMAP");
    }
    if !keyword_at(input, pos, Keyword::Bitmap) {
        return None;
    }
    let mut p = statement_end_at(input, pos + Keyword::Bitmap.bytes().len());
    let mut rows: Vec<Vec<u8>> = Vec::new();
    assert(rows_view(rows@) =~= Seq::empty());
    loop
        invariant
            pos < p <= input@.len(),
            input@.len() == input.len(),
            bitmap_at(input@, pos as int) == rows_from(input@, p as int, rows_view(rows@)),
        decreases input@.len() - p,
    {
        proof {
            lemma_span(input@, p as int, ByteClass::Whitespace);
        }
        let a = scan(input, p, ByteClass::Whitespace);
        if keyword_at(input, a, Keyword::EndChar) {
            return Some((rows, a + Keyword::EndChar.bytes().len()));
        }
        match parse_row(input, a) {
            None => return None,
            Some((row, q)) => {
                let ghost before = rows@;
                rows.push(row);
                assert(rows_view(rows@) =~= rows_view(before).push(row@));
                p = q;
            },
        }
    }
}

/// A glyph of the font.
#[derive(Debug, PartialEq)]
pub struct Glyph {
    /// The rest of the `STARTCHAR` line, as written.
    pub name: String,
    pub encoding: Encoding,
    pub bounding_box: BoundingBox,
    /// One entry per row, top row first; each holds that row's bytes.
    pub bitmap: Vec<Vec<u8>>,
    pub scalable_width: Option<Coord>,
    pub device_width: Option<Coord>,
}

/// What a [`Glyph`] holds, with its name as characters and its rows as byte sequences.
pub struct GlyphView {
    pub name: Seq<char>,
    pub encoding: Encoding,
    pub bounding_box: BoundingBox,
    pub bitmap: Seq<Seq<u8>>,
    pub scalable_width: Option<Coord>,
    pub device_width: Option<Coord>,
}

impl View for Glyph {
    type V = GlyphView;

    open spec fn view(&self) -> GlyphView {
        GlyphView {
            name: self.name@,
            encoding: self.encoding,
            bounding_box: self.bounding_box,
            bitmap: rows_view(self.bitmap@),
            scalable_width: self.scalable_width,
            device_width: self.device_width,
        }
    }
}

/// An optional statement of keyword `k` whose payload is a pair of integers:
/// where it is missing or malformed, nothing is consumed.
pub open spec fn optional_coord(s: Seq<u8>, p: int, k: Keyword) -> (Option<Coord>, int) {
    match coord_statement(s, p, k) {
        Some((c, q)) => (Some(c), q),
        None => (None, p),
    }
}

/// The glyph block at `p`, and where its `ENDCHAR` ends.
pub open spec fn glyph_at(s: Seq<u8>, p: int) -> Option<(GlyphView, int)> {
    match text_statement(s, p, Keyword::StartChar) {
        None => None,
        Some((name, q1)) => match int_statement(s, q1, Keyword::Encoding) {
            None => None,
            Some((code, q2)) => {
                let (scalable_width, q3) = optional_coord(s, q2, Keyword::SWidth);
                let (device_width, q4) = optional_coord(s, q3, Keyword::DWidth);
                match bounding_box_statement(s, q4, Keyword::Bbx) {
                    None => None,
                    Some((bounding_box, q5)) => match bitmap_at(
                        s,
                        span(s, q5, ByteClass::Whitespace),
                    ) {
                        None => None,
                        Some((bitmap, q6)) => Some((
                            GlyphView {
                                name,
                                encoding: encoding_of(code),
                                bounding_box,
                                bitmap,
                                scalable_width,
                                device_width,
                            },
                            q6,
                        )),
                    },
                }
            },
        },
    }
}

impl Glyph {
    /// Reads the glyph block at `pos`.
    pub fn parse(input: &[u8], pos: usize) -> (r: Option<(Glyph, usize)>)
        requires
            pos <= input@.len(),
        ensures
            match glyph_at(input@, pos as int) {
                None => r is None,
                Some((g, e)) => r matches Some((glyph, q)) && glyph@ == g && q as int == e,
            },
            r matches Some((g, q)) ==> pos < q <= input@.len() && g.bounding_box.valid(),
    {
        let (name, q1) = match parse_text_statement(input, pos, Keyword::StartChar) {
            None => return None,
            Some(v) => v,
        };
        let (code, q2) = match parse_int_statement(input, q1, Keyword::Encoding) {
            None => return None,
            Some(v) => v,
        };
        let (scalable_width, q3) = match parse_coord_statement(input, q2, Keyword::SWidth) {
            Some((c, q)) => (Some(c), q),
            None => (None, q2),
        };
        let (device_width, q4) = match parse_coord_statement(input, q3, Keyword::DWidth) {
            Some((c, q)) => (Some(c), q),
            None => (None, q3),
        };
        let (bounding_box, q5) = match parse_bounding_box_statement(input, q4, Keyword::Bbx) {
            None => return None,
            Some(v) => v,
        };
        let a = scan(input, q5, ByteClass::Whitespace);
        let (bitmap, q6) = match parse_bitmap(input, a) {
            None => return None,
            Some(v) => v,
        };
        let glyph = Glyph {
            name,
            encoding: Encoding::from_code(code),
            bounding_box,
            bitmap,
            scalable_width,
            device_width,
        };
        Some((glyph, q6))
    }
}

/// A bitmap row as a line of the file holds it: an even number of
/// hexadecimal digits, at least two.
pub open spec fn is_hex_row(r: Seq<u8>) -> bool {
    r.len() >= 2 && r.len() % 2 == 0 && forall|i: int| 0 <= i < r.len() ==> is_hex_digit(#[trigger] r[i])
}

/// Bitmap rows as lines: each row followed by a line feed.
pub open spec fn rows_text(rows: Seq<Seq<u8>>) -> Seq<u8>
    decreases rows.len(),
{
    if rows.len() == 0 {
        Seq::empty()
    } else {
        rows[0] + seq![LF] + rows_text(rows.drop_first())
    }
}

/// A bitmap as written: `BITMAP`, a line feed, the rows, then `ENDCHAR`.
pub open spec fn bitmap_text(rows: Seq<Seq<u8>>) -> Seq<u8> {
    Keyword::Bitmap.text() + seq![LF] + rows_text(rows) + Keyword::EndChar.text()
}

proof fn lemma_rows_from_text(s: Seq<u8>, p: int, rows: Seq<Seq<u8>>, acc: Seq<Seq<u8>>)
    requires
        0 <= p,
        p + rows_text(rows).len() + 7 <= s.len(),
        s.subrange(p, p + rows_text(rows).len() + 7) == rows_text(rows) + Keyword::EndChar.text(),
        forall|i: int| 0 <= i < rows.len() ==> is_hex_row(#[trigger] rows[i]),
    ensures
        rows_from(s, p, acc) == Some(
            (acc + rows.map_values(|r: Seq<u8>| hex_bytes(r)), p + rows_text(rows).len() + 7),
        ),
    decreases rows.len(),
{
    reveal_strlit("ENDCHAR");
    let t = rows_text(rows);
    let end = Keyword::EndChar.text();
    assert(end.len() == 7);
    assert forall|i: int| 0 <= i < t.len() + 7 implies s[p + i] == (t + end)[i] by {
        assert(s.subrange(p, p + t.len() + 7)[i] == s[p + i]);
    }
    if rows.len() == 0 {
        assert(s.subrange(p, p + t.len() + 7)[0] == s[p]);
        assert(s[p] == 0x45);
        lemma_span_exact(s, p, p, ByteClass::Whitespace);
        assert(s.subrange(p, p + 7) =~= end);
        assert(acc + rows.map_values(|r: Seq<u8>| hex_bytes(r)) =~= acc);
    } else {
        let r = rows[0];
        let tail = rows.drop_first();
        let e = p + r.len();
        assert(is_hex_row(r));
        assert(t =~= r + seq![LF] + rows_text(tail));
        assert forall|i: int| p <= i < e implies ByteClass::HexDigit.contains(#[trigger] s[i]) by {
            assert(s[p + (i - p)] == (t + end)[i - p]);
            assert(r[i - p] == t[i - p]);
        }
        assert(s[e] == LF) by {
            assert(s[p + r.len()] == (t + end)[r.len() as int]);
        }
        lemma_span_exact(s, p, p, ByteClass::Whitespace);
        assert(!has_keyword(s, p, Keyword::EndChar)) by {
            assert(ByteClass::HexDigit.contains(s[p + 1]));
            if has_keyword(s, p, Keyword::EndChar) {
                assert(s.subrange(p, p + 7)[1] == end[1]);
            }
        }
        lemma_span_exact(s, p, e, ByteClass::HexDigit);
        lemma_span_exact(s, e, e, ByteClass::Space);
        assert(s.subrange(p, e) =~= r);
        let rest_len = rows_text(tail).len();
        assert(s.subrange(e + 1, e + 1 + rest_len + 7) =~= rows_text(tail) + end) by {
            assert forall|i: int| 0 <= i < rest_len + 7 implies s.subrange(
                e + 1,
                e + 1 + rest_len + 7,
            )[i] == (rows_text(tail) + end)[i] by {
                assert(s[p + (r.len() + 1 + i)] == (t + end)[r.len() + 1 + i]);
            }
        }
        assert forall|i: int| 0 <= i < tail.len() implies is_hex_row(#[trigger] tail[i]) by {
            assert(tail[i] == rows[i + 1]);
        }
        lemma_rows_from_text(s, e + 1, tail, acc.push(hex_bytes(r)));
        assert(acc.push(hex_bytes(r)) + tail.map_values(|r: Seq<u8>| hex_bytes(r)) =~= acc
            + rows.map_values(|r: Seq<u8>| hex_bytes(r)));
    }
}

proof fn lemma_bitmap_rows_at(s: Seq<u8>, a: int, rows: Seq<Seq<u8>>)
    requires
        0 <= a,
        a + bitmap_text(rows).len() <= s.len(),
        s.subrange(a, a + bitmap_text(rows).len()) == bitmap_text(rows),
        forall|i: int| 0 <= i < rows.len() ==> is_hex_row(#[trigger] rows[i]),
    ensures
        bitmap_at(s, a) == Some(
            (rows.map_values(|r: Seq<u8>| hex_bytes(r)), a + bitmap_text(rows).len()),
        ),
{
    reveal_strlit("BITMAP");
    reveal_strlit("ENDCHAR");
    let b = bitmap_text(rows);
    let t = rows_text(rows);
    let head = Keyword::Bitmap.text();
    assert(head.len() == 6);
    assert forall|i: int| 0 <= i < b.len() implies s[a + i] == #[trigger] b[i] by {
        assert(s.subrange(a, a + b.len())[i] == s[a + i]);
    }
    assert(s.subrange(a, a + 6) =~= head) by {
        assert forall|i: int| 0 <= i < 6 implies s.subrange(a, a + 6)[i] == head[i] by {
            assert(s[a + i] == b[i]);
        }
    }
    assert(s[a + 6] == LF) by {
        assert(s[a + 6] == b[6]);
    }
    lemma_span_exact(s, a + 6, a + 6, ByteClass::Space);
    assert(s.subrange(a + 7, a + 7 + t.len() as int + 7) =~= t + Keyword::EndChar.text()) by {
        assert forall|i: int| 0 <= i < t.len() + 7 implies s.subrange(
            a + 7,
            a + 7 + t.len() as int + 7,
        )[i] == (t + Keyword::EndChar.text())[i] by {
            assert(s[a + (7 + i)] == b[7 + i]);
        }
    }
    lemma_rows_from_text(s, a + 7, rows, Seq::empty());
    assert(Seq::<Seq<u8>>::empty() + rows.map_values(|r: Seq<u8>| hex_bytes(r)) =~= rows.map_values(
        |r: Seq<u8>| hex_bytes(r),
    ));
}

/// Where the bitmap of the glyph block at `p` begins, once the statements
/// before it have been read.
pub open spec fn glyph_bitmap_start(s: Seq<u8>, p: int) -> Option<int> {
    match text_statement(s, p, Keyword::StartChar) {
        None => None,
        Some((_, q1)) => match int_statement(s, q1, Keyword::Encoding) {
            None => None,
            Some((_, q2)) => {
                let q3 = optional_coord(s, q2, Keyword::SWidth).1;
                let q4 = optional_coord(s, q3, Keyword::DWidth).1;
                match bounding_box_statement(s, q4, Keyword::Bbx) {
                    None => None,
                    Some((_, q5)) => Some(span(s, q5, ByteClass::Whitespace)),
                }
            },
        },
    }
}

/// A glyph has one bitmap entry per row written in its block, each entry
/// that row's bytes, whatever the rows' widths; so a block with as many rows
/// as its `BBX` height gives as many entries as that height.
pub proof fn lemma_glyph_rows(s: Seq<u8>, p: int, rows: Seq<Seq<u8>>)
    requires
        glyph_bitmap_start(s, p) is Some,
        0 <= glyph_bitmap_start(s, p).unwrap(),
        glyph_bitmap_start(s, p).unwrap() + bitmap_text(rows).len() <= s.len(),
        s.subrange(
            glyph_bitmap_start(s, p).unwrap(),
            glyph_bitmap_start(s, p).unwrap() + bitmap_text(rows).len(),
        ) == bitmap_text(rows),
        forall|i: int| 0 <= i < rows.len() ==> is_hex_row(#[trigger] rows[i]),
    ensures
        glyph_at(s, p) is Some,
        glyph_at(s, p).unwrap().0.bitmap == rows.map_values(|r: Seq<u8>| hex_bytes(r)),
        rows.len() == glyph_at(s, p).unwrap().0.bounding_box.size.y ==> glyph_at(s, p).unwrap().0.bitmap.len()
            == glyph_at(s, p).unwrap().0.bounding_box.size.y,
{
    lemma_bitmap_rows_at(s, glyph_bitmap_start(s, p).unwrap(), rows);
}

} // verus!
