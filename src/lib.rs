//! A parser for fonts in the Glyph Bitmap Distribution Format (BDF).
//!
//! [`parse_font`] turns the bytes of a BDF file into a [`BDFFont`]: its
//! header, its properties and its glyphs. Its contract states the result as
//! [`font_at`], a spec function that reads the grammar section by section.
use vstd::prelude::*;

pub mod geometry;
pub mod glyph;
pub mod helpers;
pub mod line_endings;
pub mod metadata;
pub mod properties;

use crate::glyph::{glyph_at, Glyph, GlyphView};
use crate::helpers::{
    has_keyword, is_whitespace, keyword_at, lemma_span, lemma_span_exact, parse_uint_statement,
    scan, span, uint_statement, ByteClass, Keyword,
};
use crate::metadata::{metadata_at, Metadata, MetadataView};
use crate::properties::{properties_at, Properties, PropertyValueView};

verus! {

/// Why a font could not be read: the section where the input went wrong.
#[derive(Clone, Copy, PartialEq, Eq, Debug, Structural)]
pub enum ParserError {
    /// The header is missing or malformed.
    Metadata,
    /// The properties section is malformed.
    Properties,
    /// The glyph count or a glyph block is malformed.
    Glyphs,
    /// Something other than whitespace follows the font.
    EndOfFile,
}

/// A parsed font.
#[derive(Debug, PartialEq)]
pub struct BDFFont {
    pub metadata: Metadata,
    /// The glyphs in the order of the file; several may share an encoding.
    pub glyphs: Vec<Glyph>,
    pub properties: Properties,
}

/// What a [`BDFFont`] holds, seen through the views of its parts.
pub struct FontView {
    pub metadata: MetadataView,
    pub glyphs: Seq<GlyphView>,
    pub properties: Map<Seq<char>, PropertyValueView>,
}

pub open spec fn glyphs_view(g: Seq<Glyph>) -> Seq<GlyphView> {
    g.map_values(|x: Glyph| x@)
}

impl View for BDFFont {
    type V = FontView;

    open spec fn view(&self) -> FontView {
        FontView {
            metadata: self.metadata@,
            glyphs: glyphs_view(self.glyphs@),
            properties: self.properties@,
        }
    }
}

/// The properties section, if one starts at `p`: its table and where it
/// ends. Without one, an empty table and `p` itself.
pub open spec fn properties_section(s: Seq<u8>, p: int) -> Result<
    (Map<Seq<char>, PropertyValueView>, int),
    ParserError,
> {
    if has_keyword(s, p, Keyword::StartProperties) {
        match properties_at(s, p) {
            None => Err(ParserError::Properties),
            Some((m, q)) => Ok((m, q)),
        }
    } else {
        Ok((Map::empty(), p))
    }
}

/// The glyph count statement, if one starts at `p` (its value is not used):
/// where it ends, or `p` itself without one.
pub open spec fn chars_section(s: Seq<u8>, p: int) -> Option<int> {
    if has_keyword(s, p, Keyword::Chars) {
        match uint_statement(s, p, Keyword::Chars) {
            None => None,
            Some((_, q)) => Some(q),
        }
    } else {
        Some(p)
    }
}

/// The glyph blocks from `p` on, appended to `acc`, and where the whitespace
/// after the last one ends.
pub open spec fn glyphs_from(s: Seq<u8>, p: int, acc: Seq<GlyphView>) -> Option<
    (Seq<GlyphView>, int),
>
    decreases s.len() - p,
{
    let a = span(s, p, ByteClass::Whitespace);
    if has_keyword(s, a, Keyword::StartChar) {
        match glyph_at(s, a) {
            None => None,
            Some((g, q)) => if p < q <= s.len() {
                glyphs_from(s, q, acc.push(g))
            } else {
                None
            },
        }
    } else {
        Some((acc, a))
    }
}

/// Where the input ends up after the glyphs, given they end at `p`: an
/// optional `ENDFONT` and whitespace around it.
pub open spec fn font_end(s: Seq<u8>, p: int) -> int {
    let a = span(s, p, ByteClass::Whitespace);
    let b = if has_keyword(s, a, Keyword::EndFont) {
        a + Keyword::EndFont.text().len()
    } else {
        a
    };
    span(s, b, ByteClass::Whitespace)
}

/// The font that the bytes `s` spell up to the end of its last glyph, and
/// where the whitespace after that ends: the header, the optional properties
/// section, the optional glyph count and the glyphs, with whitespace between them.
pub open spec fn body_at(s: Seq<u8>) -> Result<(FontView, int), ParserError> {
    match metadata_at(s, 0) {
        None => Err(ParserError::Metadata),
        Some((metadata, q1)) => match properties_section(s, span(s, q1, ByteClass::Whitespace)) {
            Err(e) => Err(e),
            Ok((properties, q2)) => match chars_section(s, span(s, q2, ByteClass::Whitespace)) {
                None => Err(ParserError::Glyphs),
                Some(q3) => match glyphs_from(s, q3, Seq::empty()) {
                    None => Err(ParserError::Glyphs),
                    Some((glyphs, q4)) => Ok((FontView { metadata, glyphs, properties }, q4)),
                },
            },
        },
    }
}

/// The font that the bytes `s` spell: its body, then an optional `ENDFONT`
/// with whitespace around it, and nothing else.
pub open spec fn font_at(s: Seq<u8>) -> Result<FontView, ParserError> {
    match body_at(s) {
        Err(e) => Err(e),
        Ok((font, p)) => if font_end(s, p) == s.len() {
            Ok(font)
        } else {
            Err(ParserError::EndOfFile)
        },
    }
}

/// Reads the glyph blocks at `pos`.
fn parse_glyphs(input: &[u8], pos: usize) -> (r: Option<(Vec<Glyph>, usize)>)
    requires
        pos <= input@.len(),
    ensures
        match glyphs_from(input@, pos as int, Seq::empty()) {
            None => r is None,
            Some((g, e)) => r matches Some((glyphs, q)) && glyphs_view(glyphs@) == g && q as int
                == e,
        },
        r matches Some((_, q)) ==> pos <= q <= input@.len(),
{
    let mut glyphs: Vec<Glyph> = Vec::new();
    let mut p = pos;
    assert(glyphs_view(glyphs@) =~= Seq::empty());
    loop
        invariant
            pos <= p <= input@.len(),
            glyphs_from(input@, pos as int, Seq::empty()) == glyphs_from(
                input@,
                p as int,
                glyphs_view(glyphs@),
            ),
        decreases input@.len() - p,
    {
        proof {
            lemma_span(input@, p as int, ByteClass::Whitespace);
        }
        let a = scan(input, p, ByteClass::Whitespace);
        if !keyword_at(input, a, Keyword::StartChar) {
            return Some((glyphs, a));
        }
        match Glyph::parse(input, a) {
            None => return None,
            Some((g, q)) => {
                let ghost before = glyphs@;
                glyphs.push(g);
                assert(glyphs_view(glyphs@) =~= glyphs_view(before).push(glyphs@.last()@));
                p = q;
            },
        }
    }
}

/// Reads a whole font from the bytes of a BDF file.
pub fn parse_font(input: &[u8]) -> (r: Result<BDFFont, ParserError>)
    ensures
        match font_at(input@) {
            Ok(f) => r matches Ok(font) && font@ == f,
            Err(e) => r matches Err(e2) && e2 == e,
        },
{
    proof {
        assert(input@.len() == input.len());
    }
    let (metadata, q1) = match Metadata::parse(input, 0) {
        None => return Err(ParserError::Metadata),
        Some(v) => v,
    };
    let a = scan(input, q1, ByteClass::Whitespace);
    let (properties, q2) = if keyword_at(input, a, Keyword::StartProperties) {
        match Properties::parse(input, a) {
            None => return Err(ParserError::Properties),
            Some(v) => v,
        }
    } else {
        (Properties::new(), a)
    };
    let b = scan(input, q2, ByteClass::Whitespace);
    let q3 = if keyword_at(input, b, Keyword::Chars) {
        match parse_uint_statement(input, b, Keyword::Chars) {
            None => return Err(ParserError::Glyphs),
            Some((_, q)) => q,
        }
    } else {
        b
    };
    let (glyphs, q4) = match parse_glyphs(input, q3) {
        None => return Err(ParserError::Glyphs),
        Some(v) => v,
    };
    let c = scan(input, q4, ByteClass::Whitespace);
    let d = if keyword_at(input, c, Keyword::EndFont) {
        c + Keyword::EndFont.bytes().len()
    } else {
        c
    };
    if scan(input, d, ByteClass::Whitespace) != input.len() {
        return Err(ParserError::EndOfFile);
    }
    Ok(BDFFont { metadata, glyphs, properties })
}

/// A parser over the text of a BDF file.
pub struct BDFParser<'a> {
    source: &'a str,
}

impl<'a> BDFParser<'a> {
    pub fn from_str(source: &'a str) -> (r: Self)
        ensures
            r.source() == source@,
    {
        Self { source }
    }

    /// The text that the parser reads.
    pub closed spec fn source(&self) -> Seq<char> {
        self.source@
    }

    /// The bytes of that text, as UTF-8.
    pub open spec fn source_bytes(&self) -> Seq<u8> {
        vstd::utf8::encode_utf8(self.source())
    }

    /// Reads the font that the text spells.
    pub fn parse(&self) -> (r: Result<BDFFont, ParserError>)
        ensures
            match font_at(self.source_bytes()) {
                Ok(f) => r matches Ok(font) && font@ == f,
                Err(e) => r matches Err(e2) && e2 == e,
            },
    {
        parse_font(self.source.as_bytes())
    }
}

/// Every byte of `w` is whitespace.
pub open spec fn all_whitespace(w: Seq<u8>) -> bool {
    forall|i: int| 0 <= i < w.len() ==> is_whitespace(#[trigger] w[i])
}

/// `ENDFONT` may be left out: where only whitespace follows the glyphs,
/// the font read from `s` is the one its body spells.
pub proof fn lemma_font_without_endfont(s: Seq<u8>)
    requires
        body_at(s) is Ok,
        0 <= body_at(s).unwrap().1 <= s.len(),
        all_whitespace(s.subrange(body_at(s).unwrap().1, s.len() as int)),
    ensures
        font_at(s) == Ok::<FontView, ParserError>(body_at(s).unwrap().0),
{
    let p = body_at(s).unwrap().1;
    assert forall|i: int| p <= i < s.len() implies ByteClass::Whitespace.contains(#[trigger] s[i]) by {
        assert(s.subrange(p, s.len() as int)[i - p] == s[i]);
    }
    lemma_span_exact(s, p, s.len() as int, ByteClass::Whitespace);
    lemma_span_exact(s, s.len() as int, s.len() as int, ByteClass::Whitespace);
    reveal_strlit("ENDFONT");
}

proof fn lemma_end_after_endfont(s: Seq<u8>, p: int, w: Seq<u8>, x: Seq<u8>)
    requires
        0 <= p <= s.len(),
        s.subrange(p, s.len() as int) == Keyword::EndFont.text() + w + x,
        all_whitespace(w),
        x.len() == 0 || !is_whitespace(x[0]),
    ensures
        x.len() == 0 ==> font_end(s, p) == s.len(),
        x.len() > 0 ==> font_end(s, p) < s.len(),
{
    reveal_strlit("ENDFONT");
    let k = Keyword::EndFont.text();
    let tail = k + w + x;
    assert(k.len() == 7);
    assert(p + tail.len() == s.len());
    assert forall|i: int| 0 <= i < tail.len() implies s[p + i] == #[trigger] tail[i] by {
        assert(s.subrange(p, s.len() as int)[i] == s[p + i]);
    }
    assert(s[p + 0] == tail[0]);
    lemma_span_exact(s, p, p, ByteClass::Whitespace);
    assert(s.subrange(p, p + 7) =~= k) by {
        assert forall|i: int| 0 <= i < 7 implies s.subrange(p, p + 7)[i] == k[i] by {
            assert(s[p + i] == tail[i]);
        }
    }
    let b = p + 7;
    let e = b + w.len();
    assert forall|i: int| b <= i < e implies ByteClass::Whitespace.contains(#[trigger] s[i]) by {
        assert(s[p + (i - p)] == tail[i - p]);
        assert(tail[i - p] == w[i - b]);
    }
    if x.len() > 0 {
        assert(s[p + (e - p)] == tail[e - p]);
        assert(tail[e - p] == x[0]);
    }
    lemma_span_exact(s, b, e, ByteClass::Whitespace);
}

/// After the glyphs, an explicit `ENDFONT` may be followed by whitespace
/// only: then the font is the body's; any other byte after that whitespace
/// makes it an `EndOfFile` error.
pub proof fn lemma_font_after_endfont(s: Seq<u8>, w: Seq<u8>, x: Seq<u8>)
    requires
        body_at(s) is Ok,
        0 <= body_at(s).unwrap().1 <= s.len(),
        s.subrange(body_at(s).unwrap().1, s.len() as int) == Keyword::EndFont.text() + w + x,
        all_whitespace(w),
        x.len() == 0 || !is_whitespace(x[0]),
    ensures
        x.len() == 0 ==> font_at(s) == Ok::<FontView, ParserError>(body_at(s).unwrap().0),
        x.len() > 0 ==> font_at(s) == Err::<FontView, ParserError>(ParserError::EndOfFile),
{
    lemma_end_after_endfont(s, body_at(s).unwrap().1, w, x);
}

} // verus!
