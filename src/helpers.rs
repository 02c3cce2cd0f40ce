//! Byte-level grammar shared by every section of a BDF file: byte classes,
//! keywords, numbers, rest-of-line text, statements and comments.
//!
//! Each parser comes twice: as a spec function over `(s, p)`, the whole input
//! and a position in it, and as an exec function over `(input, pos)` whose
//! contract says it computes exactly that spec function. A parser that
//! succeeds returns its value and the position just after what it consumed.
use vstd::prelude::*;

use crate::geometry::{BoundingBox, Coord};

verus! {

pub const SPACE: u8 = 0x20;

pub const TAB: u8 = 0x09;

pub const LF: u8 = 0x0a;

pub const CR: u8 = 0x0d;

pub const QUOTE: u8 = 0x22;

pub const PLUS: u8 = 0x2b;

pub const MINUS: u8 = 0x2d;

pub const DOT: u8 = 0x2e;

pub open spec fn is_space(b: u8) -> bool {
    b == SPACE || b == TAB
}

pub open spec fn is_line_break(b: u8) -> bool {
    b == LF || b == CR
}

pub open spec fn is_whitespace(b: u8) -> bool {
    is_space(b) || is_line_break(b)
}

pub open spec fn is_digit(b: u8) -> bool {
    0x30 <= b <= 0x39
}

pub open spec fn is_hex_digit(b: u8) -> bool {
    is_digit(b) || (0x41 <= b <= 0x46) || (0x61 <= b <= 0x66)
}

/// The sets of bytes that the grammar scans runs of.
#[derive(Clone, Copy, PartialEq, Eq, Debug)]
pub enum ByteClass {
    /// Space or tab.
    Space,
    /// Space, tab, carriage return or line feed.
    Whitespace,
    /// A decimal digit.
    Digit,
    /// A hexadecimal digit, in either case.
    HexDigit,
    /// Anything but a carriage return or a line feed.
    LineContent,
    /// Anything but whitespace.
    Word,
    /// Anything but a double quote, a carriage return or a line feed.
    QuotedContent,
    /// Anything but a line feed.
    NotLineFeed,
}

impl ByteClass {
    pub open spec fn contains(self, b: u8) -> bool {
        match self {
            ByteClass::Space => is_space(b),
            ByteClass::Whitespace => is_whitespace(b),
            ByteClass::Digit => is_digit(b),
            ByteClass::HexDigit => is_hex_digit(b),
            ByteClass::LineContent => !is_line_break(b),
            ByteClass::Word => !is_whitespace(b),
            ByteClass::QuotedContent => b != QUOTE && !is_line_break(b),
            ByteClass::NotLineFeed => b != LF,
        }
    }

    pub fn includes(self, b: u8) -> (r: bool)
        ensures
            r == self.contains(b),
    {
        match self {
            ByteClass::Space => b == SPACE || b == TAB,
            ByteClass::Whitespace => b == SPACE || b == TAB || b == LF || b == CR,
            ByteClass::Digit => 0x30 <= b && b <= 0x39,
            ByteClass::HexDigit => (0x30 <= b && b <= 0x39) || (0x41 <= b && b <= 0x46) || (0x61
                <= b && b <= 0x66),
            ByteClass::LineContent => b != LF && b != CR,
            ByteClass::Word => !(b == SPACE || b == TAB || b == LF || b == CR),
            ByteClass::QuotedContent => b != QUOTE && b != LF && b != CR,
            ByteClass::NotLineFeed => b != LF,
        }
    }
}

/// The end of the longest run of bytes of `class` that starts at `p`.
pub open spec fn span(s: Seq<u8>, p: int, class: ByteClass) -> int
    decreases s.len() - p,
{
    if 0 <= p < s.len() && class.contains(s[p]) {
        span(s, p + 1, class)
    } else {
        p
    }
}

pub proof fn lemma_span(s: Seq<u8>, p: int, class: ByteClass)
    requires
        0 <= p <= s.len(),
    ensures
        p <= span(s, p, class) <= s.len(),
        forall|i: int| p <= i < span(s, p, class) ==> class.contains(#[trigger] s[i]),
        span(s, p, class) < s.len() ==> !class.contains(s[span(s, p, class)]),
    decreases s.len() - p,
{
    if p < s.len() && class.contains(s[p]) {
        lemma_span(s, p + 1, class);
    }
}

/// A run that is known to end at `e` ends there.
pub proof fn lemma_span_exact(s: Seq<u8>, p: int, e: int, class: ByteClass)
    requires
        0 <= p <= e <= s.len(),
        forall|i: int| p <= i < e ==> class.contains(#[trigger] s[i]),
        e == s.len() || !class.contains(s[e]),
    ensures
        span(s, p, class) == e,
    decreases e - p,
{
    if p < e {
        lemma_span_exact(s, p + 1, e, class);
    }
}

/// Skips the run of bytes of `class` that starts at `pos`.
pub fn scan(input: &[u8], pos: usize, class: ByteClass) -> (r: usize)
    requires
        pos <= input@.len(),
    ensures
        r as int == span(input@, pos as int, class),
        pos <= r <= input@.len(),
{
    proof {
        lemma_span(input@, pos as int, class);
    }
    let mut i: usize = pos;
    while i < input.len() && class.includes(input[i])
        invariant
            pos <= i <= input@.len(),
            span(input@, i as int, class) == span(input@, pos as int, class),
        decreases input@.len() - i,
    {
        i = i + 1;
    }
    i
}

/// Whether the bytes at `p` are exactly `t`.
pub open spec fn has_tag(s: Seq<u8>, p: int, t: Seq<u8>) -> bool {
    0 <= p && p + t.len() <= s.len() && s.subrange(p, p + t.len()) == t
}

pub fn tag(input: &[u8], pos: usize, t: &[u8]) -> (r: bool)
    requires
        pos <= input@.len(),
    ensures
        r == has_tag(input@, pos as int, t@),
{
    if t.len() > input.len() - pos {
        return false;
    }
    let mut i: usize = 0;
    while i < t.len()
        invariant
            i <= t@.len(),
            pos + t@.len() <= input@.len(),
            input@.len() == input.len(),
            t@.len() == t.len(),
            forall|j: int| 0 <= j < i ==> input@[pos + j] == t@[j],
        decreases t@.len() - i,
    {
        if input[pos + i] != t[i] {
            assert(input@.subrange(pos as int, pos + t@.len())[i as int] != t@[i as int]);
            return false;
        }
        i = i + 1;
    }
    assert(input@.subrange(pos as int, pos + t@.len()) =~= t@);
    true
}

/// The keywords of the format.
#[derive(Clone, Copy, PartialEq, Eq, Debug)]
pub enum Keyword {
    StartFont,
    Font,
    Size,
    FontBoundingBox,
    StartProperties,
    EndProperties,
    Chars,
    StartChar,
    Encoding,
    SWidth,
    DWidth,
    Bbx,
    Bitmap,
    EndChar,
    EndFont,
    Comment,
}

/// The bytes of an ASCII text.
pub open spec fn ascii(t: Seq<char>) -> Seq<u8> {
    t.map_values(|c: char| c as u8)
}

fn ascii_bytes(t: &'static str) -> (r: &'static [u8])
    requires
        t.is_ascii(),
    ensures
        r@ == ascii(t@),
{
    broadcast use vstd::string::is_ascii_spec_bytes;

    let r = t.as_bytes();
    assert(r@ =~= ascii(t@));
    r
}

impl Keyword {
    pub open spec fn text(self) -> Seq<u8> {
        match self {
            Keyword::StartFont => ascii("STARTFONT"@),
            Keyword::Font => ascii("FONT"@),
            Keyword::Size => ascii("SIZE"@),
            Keyword::FontBoundingBox => ascii("FONTBOUNDINGBOX"@),
            Keyword::StartProperties => ascii("STARTPROPERTIES"@),
            Keyword::EndProperties => ascii("ENDPROPERTIES"@),
            Keyword::Chars => ascii("CHARS"@),
            Keyword::StartChar => ascii("STARTCHAR"@),
            Keyword::Encoding => ascii("ENCODING"@),
            Keyword::SWidth => ascii("SWIDTH"@),
            Keyword::DWidth => ascii("DWIDTH"@),
            Keyword::Bbx => ascii("BBX"@),
            Keyword::Bitmap => ascii("BITMAP"@),
            Keyword::EndChar => ascii("ENDCHAR"@),
            Keyword::EndFont => ascii("ENDFONT"@),
            Keyword::Comment => ascii("COMMENT"@),
        }
    }

    pub fn bytes(self) -> (r: &'static [u8])
        ensures
            r@ == self.text(),
    {
        match self {
            Keyword::StartFont => {
                proof {
                    reveal_strlit("STARTFONT");
                }
                ascii_bytes("STARTFONT")
            },
            Keyword::Font => {
                proof {
                    reveal_strlit("FONT");
                }
                ascii_bytes("FONT")
            },
            Keyword::Size => {
                proof {
                    reveal_strlit("SIZE");
                }
                ascii_bytes("SIZE")
            },
            Keyword::FontBoundingBox => {
                proof {
                    reveal_strlit("FONTBOUNDINGBOX");
                }
                ascii_bytes("FONTBOUNDINGBOX")
            },
            Keyword::StartProperties => {
                proof {
                    reveal_strlit("STARTPROPERTIES");
                }
                ascii_bytes("STARTPROPERTIES")
            },
            Keyword::EndProperties => {
                proof {
                    reveal_strlit("ENDPROPERTIES");
                }
                ascii_bytes("ENDPROPERTIES")
            },
            Keyword::Chars => {
                proof {
                    reveal_strlit("CHARS");
                }
                ascii_bytes("CHARS")
            },
            Keyword::StartChar => {
                proof {
                    reveal_strlit("STARTCHAR");
                }
                ascii_bytes("STARTCHAR")
            },
            Keyword::Encoding => {
                proof {
                    reveal_strlit("ENCODING");
                }
                ascii_bytes("ENCODING")
            },
            Keyword::SWidth => {
                proof {
                    reveal_strlit("SWIDTH");
                }
                ascii_bytes("SWIDTH")
            },
            Keyword::DWidth => {
                proof {
                    reveal_strlit("DWIDTH");
                }
                ascii_bytes("DWIDTH")
            },
            Keyword::Bbx => {
                proof {
                    reveal_strlit("BBX");
                }
                ascii_bytes("BBX")
            },
            Keyword::Bitmap => {
                proof {
                    reveal_strlit("BITMAP");
                }
                ascii_bytes("BITMAP")
            },
            Keyword::EndChar => {
                proof {
                    reveal_strlit("ENDCHAR");
                }
                ascii_bytes("ENDCHAR")
            },
            Keyword::EndFont => {
                proof {
                    reveal_strlit("ENDFONT");
                }
                ascii_bytes("ENDFONT")
            },
            Keyword::Comment => {
                proof {
                    reveal_strlit("COMMENT");
                }
                ascii_bytes("COMMENT")
            },
        }
    }
}

/// Whether keyword `k` stands at `p`.
pub open spec fn has_keyword(s: Seq<u8>, p: int, k: Keyword) -> bool {
    has_tag(s, p, k.text())
}

pub fn keyword_at(input: &[u8], pos: usize, k: Keyword) -> (r: bool)
    requires
        pos <= input@.len(),
    ensures
        r == has_keyword(input@, pos as int, k),
        r ==> pos + k.text().len() <= input@.len(),
{
    tag(input, pos, k.bytes())
}

/// The length of the line terminator at `p`: 1 for `\n`, 2 for `\r\n`, 0 if none stands there.
pub open spec fn line_ending_len(s: Seq<u8>, p: int) -> int {
    if 0 <= p < s.len() && s[p] == LF {
        1
    } else if 0 <= p && p + 1 < s.len() && s[p] == CR && s[p + 1] == LF {
        2
    } else {
        0
    }
}

pub fn line_ending(input: &[u8], pos: usize) -> (r: usize)
    requires
        pos <= input@.len(),
    ensures
        r as int == line_ending_len(input@, pos as int),
        pos + r <= input@.len(),
{
    if pos < input.len() && input[pos] == LF {
        1
    } else if input.len() - pos >= 2 && input[pos] == CR && input[pos + 1] == LF {
        2
    } else {
        0
    }
}

/// Where the payload of a statement of keyword `k` begins, for a statement
/// that is looked for at `p`: after any whitespace and line breaks, the
/// keyword, then at least one space or tab.
pub open spec fn statement_start(s: Seq<u8>, p: int, k: Keyword) -> Option<int> {
    let a = span(s, p, ByteClass::Whitespace);
    let b = a + k.text().len();
    if has_keyword(s, a, k) && b < s.len() && is_space(s[b]) {
        Some(span(s, b, ByteClass::Space))
    } else {
        None
    }
}

/// Where a statement whose payload ends at `p` ends: after trailing spaces
/// and tabs, and one line terminator if there is one.
pub open spec fn statement_end(s: Seq<u8>, p: int) -> int {
    let a = span(s, p, ByteClass::Space);
    a + line_ending_len(s, a)
}

/// Opens a statement of keyword `k` at `pos`: returns where its payload begins.
pub fn statement(input: &[u8], pos: usize, k: Keyword) -> (r: Option<usize>)
    requires
        pos <= input@.len(),
    ensures
        r matches Some(q) ==> statement_start(input@, pos as int, k) == Some(q as int) && pos < q
            <= input@.len(),
        r is None ==> statement_start(input@, pos as int, k) is None,
{
    proof {
        lemma_span(input@, pos as int, ByteClass::Whitespace);
        assert(input@.len() == input.len());
    }
    let a = scan(input, pos, ByteClass::Whitespace);
    if keyword_at(input, a, k) {
        let b = a + k.bytes().len();
        if b < input.len() && (input[b] == SPACE || input[b] == TAB) {
            proof {
                lemma_span(input@, b as int, ByteClass::Space);
            }
            return Some(scan(input, b, ByteClass::Space));
        }
    }
    None
}

/// Closes a statement whose payload ends at `pos`: returns where it ends.
pub fn statement_end_at(input: &[u8], pos: usize) -> (r: usize)
    requires
        pos <= input@.len(),
    ensures
        r as int == statement_end(input@, pos as int),
        pos <= r <= input@.len(),
{
    proof {
        assert(input@.len() == input.len());
    }
    let a = scan(input, pos, ByteClass::Space);
    a + line_ending(input, a)
}

/// A parse result with its end position as an integer.
pub open spec fn at<T>(r: Option<(T, usize)>) -> Option<(T, int)> {
    match r {
        Some((v, q)) => Some((v, q as int)),
        None => None,
    }
}

/// The value of a decimal digit.
pub open spec fn digit_value(b: u8) -> nat {
    (b - 0x30) as nat
}

/// The value of a sequence of decimal digits, most significant first.
pub open spec fn decimal_value(d: Seq<u8>) -> nat
    decreases d.len(),
{
    if d.len() == 0 {
        0
    } else {
        decimal_value(d.drop_last()) * 10 + digit_value(d.last())
    }
}

/// One or more decimal digits at `p` whose value is at most `limit`.
pub open spec fn magnitude(s: Seq<u8>, p: int, limit: nat) -> Option<(nat, int)> {
    let e = span(s, p, ByteClass::Digit);
    if p < e && decimal_value(s.subrange(p, e)) <= limit {
        Some((decimal_value(s.subrange(p, e)), e))
    } else {
        None
    }
}

pub fn parse_magnitude(input: &[u8], pos: usize, limit: u64) -> (r: Option<(u64, usize)>)
    requires
        pos <= input@.len(),
    ensures
        match magnitude(input@, pos as int, limit as nat) {
            None => r is None,
            Some((v, e)) => r matches Some((m, q)) && m as nat == v && q as int == e,
        },
        r matches Some((_, q)) ==> pos < q <= input@.len(),
{
    let ghost s = input@;
    let mut acc: u128 = 0;
    let mut over = false;
    let mut i: usize = pos;
    while i < input.len() && 0x30 <= input[i] && input[i] <= 0x39
        invariant
            pos <= i <= s.len(),
            s == input@,
            span(s, i as int, ByteClass::Digit) == span(s, pos as int, ByteClass::Digit),
            !over ==> acc == decimal_value(s.subrange(pos as int, i as int)) && acc <= limit,
            over ==> decimal_value(s.subrange(pos as int, i as int)) > limit,
        decreases s.len() - i,
    {
        let ghost prev = s.subrange(pos as int, i as int);
        assert(s.subrange(pos as int, i + 1).drop_last() =~= prev);
        if !over {
            acc = acc * 10 + (input[i] - 0x30) as u128;
            if acc > limit as u128 {
                over = true;
            }
        }
        i = i + 1;
    }
    if i == pos || over {
        None
    } else {
        Some((acc as u64, i))
    }
}

/// An optionally signed decimal integer at `p` between `-limit - 1` and `limit`.
pub open spec fn signed_int(s: Seq<u8>, p: int, limit: nat) -> Option<(int, int)> {
    let signed = 0 <= p < s.len() && (s[p] == MINUS || s[p] == PLUS);
    let negative = signed && s[p] == MINUS;
    let q = if signed {
        p + 1
    } else {
        p
    };
    match magnitude(s, q, if negative { limit + 1 } else { limit }) {
        None => None,
        Some((v, e)) => Some((
            if negative {
                -v
            } else {
                v as int
            },
            e,
        )),
    }
}

/// An unsigned decimal integer that fits in 32 bits.
pub open spec fn u32_at(s: Seq<u8>, p: int) -> Option<(u32, int)> {
    match magnitude(s, p, u32::MAX as nat) {
        None => None,
        Some((v, e)) => Some((v as u32, e)),
    }
}

/// A signed decimal integer that fits in 32 bits.
pub open spec fn i32_at(s: Seq<u8>, p: int) -> Option<(i32, int)> {
    match signed_int(s, p, i32::MAX as nat) {
        None => None,
        Some((v, e)) => Some((v as i32, e)),
    }
}

/// A signed decimal integer that fits in 64 bits.
pub open spec fn i64_at(s: Seq<u8>, p: int) -> Option<(i64, int)> {
    match signed_int(s, p, i64::MAX as nat) {
        None => None,
        Some((v, e)) => Some((v as i64, e)),
    }
}

pub fn parse_u32(input: &[u8], pos: usize) -> (r: Option<(u32, usize)>)
    requires
        pos <= input@.len(),
    ensures
        at(r) == u32_at(input@, pos as int),
        r matches Some((_, q)) ==> pos < q <= input@.len(),
{
    match parse_magnitude(input, pos, 0xffff_ffff) {
        None => None,
        Some((v, e)) => Some((v as u32, e)),
    }
}

/// Reads an optional sign and a magnitude of at most `limit`, or `limit + 1` after a minus.
fn parse_signed(input: &[u8], pos: usize, limit: u64) -> (r: Option<(bool, u64, usize)>)
    requires
        pos <= input@.len(),
        limit < u64::MAX,
    ensures
        match signed_int(input@, pos as int, limit as nat) {
            None => r is None,
            Some((v, e)) => {
                &&& r is Some
                &&& r.unwrap().2 == e
                &&& v == if r.unwrap().0 {
                    -(r.unwrap().1 as int)
                } else {
                    r.unwrap().1 as int
                }
                &&& r.unwrap().1 <= limit + 1
                &&& !r.unwrap().0 ==> r.unwrap().1 <= limit
            },
        },
        r matches Some((_, _, q)) ==> pos < q <= input@.len(),
{
    let signed = pos < input.len() && (input[pos] == MINUS || input[pos] == PLUS);
    let negative = signed && input[pos] == MINUS;
    let q = if signed {
        pos + 1
    } else {
        pos
    };
    let bound = if negative {
        limit + 1
    } else {
        limit
    };
    match parse_magnitude(input, q, bound) {
        None => None,
        Some((m, e)) => Some((negative, m, e)),
    }
}

pub fn parse_i32(input: &[u8], pos: usize) -> (r: Option<(i32, usize)>)
    requires
        pos <= input@.len(),
    ensures
        at(r) == i32_at(input@, pos as int),
        r matches Some((_, q)) ==> pos < q <= input@.len(),
{
    match parse_signed(input, pos, 0x7fff_ffff) {
        None => None,
        Some((negative, m, e)) => {
            let v: i64 = if negative {
                -(m as i64)
            } else {
                m as i64
            };
            Some((v as i32, e))
        },
    }
}

pub fn parse_i64(input: &[u8], pos: usize) -> (r: Option<(i64, usize)>)
    requires
        pos <= input@.len(),
    ensures
        at(r) == i64_at(input@, pos as int),
        r matches Some((_, q)) ==> pos < q <= input@.len(),
{
    match parse_signed(input, pos, 0x7fff_ffff_ffff_ffff) {
        None => None,
        Some((negative, m, e)) => {
            let v: i128 = if negative {
                -(m as i128)
            } else {
                m as i128
            };
            Some((v as i64, e))
        },
    }
}

/// The text that `String::from_utf8_lossy` makes of the bytes `b`.
pub uninterp spec fn lossy_text(b: Seq<u8>) -> Seq<char>;

/// Relies on `String::from_utf8_lossy`: the text depends on the bytes alone,
/// with each invalid UTF-8 sequence replaced by U+FFFD; valid UTF-8 comes
/// back unchanged.
#[verifier::external_body]
fn decode_text(b: &[u8]) -> (r: String)
    ensures
        r@ == lossy_text(b@),
        vstd::utf8::valid_utf8(b@) ==> r@ == vstd::utf8::decode_utf8(b@),
{
    String::from_utf8_lossy(b).into_owned()
}

/// Where the line that `pos` is on ends: at the first carriage return or line
/// feed, or at the end of input.
pub fn take_until_line_ending(input: &[u8], pos: usize) -> (r: usize)
    requires
        pos <= input@.len(),
    ensures
        r as int == span(input@, pos as int, ByteClass::LineContent),
        pos <= r <= input@.len(),
{
    scan(input, pos, ByteClass::LineContent)
}

/// The text of the bytes from `p` to `e`.
pub open spec fn text_between(s: Seq<u8>, p: int, e: int) -> Seq<char> {
    lossy_text(s.subrange(p, e))
}

pub fn text_between_at(input: &[u8], pos: usize, end: usize) -> (r: String)
    requires
        pos <= end <= input@.len(),
    ensures
        r@ == text_between(input@, pos as int, end as int),
{
    decode_text(&input[pos..end])
}

/// The rest of the line as text.
pub open spec fn line_text(s: Seq<u8>, p: int) -> (Seq<char>, int) {
    let e = span(s, p, ByteClass::LineContent);
    (text_between(s, p, e), e)
}

pub fn parse_line_text(input: &[u8], pos: usize) -> (r: (String, usize))
    requires
        pos <= input@.len(),
    ensures
        (r.0@, r.1 as int) == line_text(input@, pos as int),
        pos <= r.1 <= input@.len(),
{
    let e = take_until_line_ending(input, pos);
    (text_between_at(input, pos, e), e)
}

/// Where the text of a comment whose line runs from `b` to `e` ends: a
/// carriage return just before the line feed belongs to the terminator.
pub open spec fn comment_text_end(s: Seq<u8>, b: int, e: int) -> int {
    if b < e && e < s.len() && s[e - 1] == CR {
        e - 1
    } else {
        e
    }
}

/// A comment line at `p`: `COMMENT`, then either the line's end at once, or
/// spaces and any text up to the next line feed or the end of input. A
/// carriage return just before that line feed is no part of the text. Its
/// text and where it ends, after the line feed.
pub open spec fn comment_at(s: Seq<u8>, p: int) -> Option<(Seq<char>, int)> {
    let k = p + Keyword::Comment.text().len();
    let b = span(s, k, ByteClass::Space);
    let e = span(s, b, ByteClass::NotLineFeed);
    let te = comment_text_end(s, b, e);
    if has_keyword(s, p, Keyword::Comment) && (k < b || te == k) {
        Some((
            text_between(s, b, te),
            if e < s.len() {
                e + 1
            } else {
                e
            },
        ))
    } else {
        None
    }
}

/// Reads one comment line at `pos`.
pub fn comment(input: &[u8], pos: usize) -> (r: Option<(String, usize)>)
    requires
        pos <= input@.len(),
    ensures
        match comment_at(input@, pos as int) {
            None => r is None,
            Some((t, e)) => r matches Some((text, q)) && text@ == t && q as int == e,
        },
        r matches Some((_, q)) ==> pos < q <= input@.len(),
{
    proof {
        assert(input@.len() == input.len());
    }
    if !keyword_at(input, pos, Keyword::Comment) {
        return None;
    }
    let k = pos + Keyword::Comment.bytes().len();
    proof {
        lemma_span(input@, k as int, ByteClass::Space);
    }
    let b = scan(input, k, ByteClass::Space);
    proof {
        lemma_span(input@, b as int, ByteClass::NotLineFeed);
    }
    let e = scan(input, b, ByteClass::NotLineFeed);
    let te = if b < e && e < input.len() && input[e - 1] == CR {
        e - 1
    } else {
        e
    };
    if k < b || te == k {
        proof {
            reveal_strlit("COMMENT");
        }
        let end = if e < input.len() {
            e + 1
        } else {
            e
        };
        Some((text_between_at(input, b, te), end))
    } else {
        None
    }
}

/// Whitespace and comment lines from `p` on, in any order; the texts of the
/// comments are appended to `acc`. Returns them and where the run ends.
pub open spec fn comments_from(s: Seq<u8>, p: int, acc: Seq<Seq<char>>) -> (Seq<Seq<char>>, int)
    decreases s.len() - p,
{
    let a = span(s, p, ByteClass::Whitespace);
    match comment_at(s, a) {
        Some((t, q)) => if p < q <= s.len() {
            comments_from(s, q, acc.push(t))
        } else {
            (acc, a)
        },
        None => (acc, a),
    }
}

/// Where the run of whitespace and comments that starts at `p` ends.
pub open spec fn skip_comments(s: Seq<u8>, p: int) -> int {
    comments_from(s, p, Seq::empty()).1
}

/// The comment lines that follow each other directly from `p` on, their
/// texts appended to `acc`; and where the last of them ends.
pub open spec fn comment_lines(s: Seq<u8>, p: int, acc: Seq<Seq<char>>) -> (Seq<Seq<char>>, int)
    decreases s.len() - p,
{
    match comment_at(s, p) {
        Some((t, q)) => if p < q <= s.len() {
            comment_lines(s, q, acc.push(t))
        } else {
            (acc, p)
        },
        None => (acc, p),
    }
}

/// Skips one run of whitespace at `pos`, then reads the comment lines that
/// follow each other directly: returns their texts and where the last one
/// ends (a blank line after a comment ends the run and is not consumed).
pub fn optional_comments(input: &[u8], pos: usize) -> (r: (Vec<String>, usize))
    requires
        pos <= input@.len(),
    ensures
        comment_lines(input@, span(input@, pos as int, ByteClass::Whitespace), Seq::empty()) == (
            r.0@.map_values(|t: String| t@),
            r.1 as int,
        ),
        pos <= r.1 <= input@.len(),
{
    proof {
        lemma_span(input@, pos as int, ByteClass::Whitespace);
    }
    let start = scan(input, pos, ByteClass::Whitespace);
    let mut texts: Vec<String> = Vec::new();
    let mut p = start;
    assert(texts@.map_values(|t: String| t@) =~= Seq::empty());
    loop
        invariant
            pos <= start <= p <= input@.len(),
            start == span(input@, pos as int, ByteClass::Whitespace),
            comment_lines(input@, start as int, Seq::empty()) == comment_lines(
                input@,
                p as int,
                texts@.map_values(|t: String| t@),
            ),
        decreases input@.len() - p,
    {
        match comment(input, p) {
            Some((t, q)) => {
                let ghost before = texts@;
                texts.push(t);
                assert(texts@.map_values(|t: String| t@) =~= before.map_values(|t: String| t@).push(
                    t@,
                ));
                p = q;
            },
            None => {
                return (texts, p);
            },
        }
    }
}

/// Skips whitespace and comment lines at `pos`, in any order: returns the
/// comments' texts and where the run ends. The header and the properties
/// section allow blank lines between their comments.
pub(crate) fn blank_and_comment_lines(input: &[u8], pos: usize) -> (r: (Vec<String>, usize))
    requires
        pos <= input@.len(),
    ensures
        comments_from(input@, pos as int, Seq::empty()) == (
            r.0@.map_values(|t: String| t@),
            r.1 as int,
        ),
        pos <= r.1 <= input@.len(),
{
    let mut texts: Vec<String> = Vec::new();
    let mut p = pos;
    assert(texts@.map_values(|t: String| t@) =~= Seq::empty());
    loop
        invariant
            pos <= p <= input@.len(),
            comments_from(input@, pos as int, Seq::empty()) == comments_from(
                input@,
                p as int,
                texts@.map_values(|t: String| t@),
            ),
        decreases input@.len() - p,
    {
        proof {
            lemma_span(input@, p as int, ByteClass::Whitespace);
        }
        let a = scan(input, p, ByteClass::Whitespace);
        match comment(input, a) {
            Some((t, q)) => {
                let ghost before = texts@;
                texts.push(t);
                assert(texts@.map_values(|t: String| t@) =~= before.map_values(|t: String| t@).push(
                    t@,
                ));
                p = q;
            },
            None => {
                return (texts, a);
            },
        }
    }
}

/// Two integers separated by spaces or tabs: `<x> <y>`.
pub open spec fn coord_at(s: Seq<u8>, p: int) -> Option<(Coord, int)> {
    match i32_at(s, p) {
        None => None,
        Some((x, a)) => if 0 <= a < s.len() && is_space(s[a]) {
            match i32_at(s, span(s, a, ByteClass::Space)) {
                None => None,
                Some((y, e)) => Some((Coord { x, y }, e)),
            }
        } else {
            None
        },
    }
}

pub fn parse_coord(input: &[u8], pos: usize) -> (r: Option<(Coord, usize)>)
    requires
        pos <= input@.len(),
    ensures
        at(r) == coord_at(input@, pos as int),
        r matches Some((_, e)) ==> pos < e <= input@.len(),
{
    let (x, a) = match parse_i32(input, pos) {
        None => return None,
        Some(v) => v,
    };
    if a < input.len() && (input[a] == SPACE || input[a] == TAB) {
        let b = scan(input, a, ByteClass::Space);
        match parse_i32(input, b) {
            None => None,
            Some((y, e)) => Some((Coord { x, y }, e)),
        }
    } else {
        None
    }
}

/// A box as `<size_x> <size_y> <offset_x> <offset_y>`, with neither size negative.
pub open spec fn bounding_box_at(s: Seq<u8>, p: int) -> Option<(BoundingBox, int)> {
    match coord_at(s, p) {
        None => None,
        Some((size, a)) => if 0 <= a < s.len() && is_space(s[a]) && size.x >= 0 && size.y >= 0 {
            match coord_at(s, span(s, a, ByteClass::Space)) {
                None => None,
                Some((offset, e)) => Some((BoundingBox { offset, size }, e)),
            }
        } else {
            None
        },
    }
}

pub fn parse_bounding_box(input: &[u8], pos: usize) -> (r: Option<(BoundingBox, usize)>)
    requires
        pos <= input@.len(),
    ensures
        at(r) == bounding_box_at(input@, pos as int),
        r matches Some((b, q)) ==> b.valid() && pos < q <= input@.len(),
{
    let (size, a) = match parse_coord(input, pos) {
        None => return None,
        Some(v) => v,
    };
    if a < input.len() && (input[a] == SPACE || input[a] == TAB) && size.x >= 0 && size.y >= 0 {
        let b = scan(input, a, ByteClass::Space);
        match parse_coord(input, b) {
            None => None,
            Some((offset, e)) => Some((BoundingBox { offset, size }, e)),
        }
    } else {
        None
    }
}

/// A statement of keyword `k` whose payload is the rest of the line.
pub open spec fn text_statement(s: Seq<u8>, p: int, k: Keyword) -> Option<(Seq<char>, int)> {
    match statement_start(s, p, k) {
        None => None,
        Some(q) => Some((line_text(s, q).0, statement_end(s, line_text(s, q).1))),
    }
}

pub fn parse_text_statement(input: &[u8], pos: usize, k: Keyword) -> (r: Option<(String, usize)>)
    requires
        pos <= input@.len(),
    ensures
        match text_statement(input@, pos as int, k) {
            None => r is None,
            Some((t, e)) => r matches Some((text, q)) && text@ == t && q as int == e,
        },
        r matches Some((_, q)) ==> pos < q <= input@.len(),
{
    match statement(input, pos, k) {
        None => None,
        Some(q) => {
            let (text, e) = parse_line_text(input, q);
            Some((text, statement_end_at(input, e)))
        },
    }
}

/// A statement of keyword `k` whose payload is one integer.
pub open spec fn int_statement(s: Seq<u8>, p: int, k: Keyword) -> Option<(i32, int)> {
    match statement_start(s, p, k) {
        None => None,
        Some(q) => match i32_at(s, q) {
            None => None,
            Some((v, e)) => Some((v, statement_end(s, e))),
        },
    }
}

pub fn parse_int_statement(input: &[u8], pos: usize, k: Keyword) -> (r: Option<(i32, usize)>)
    requires
        pos <= input@.len(),
    ensures
        at(r) == int_statement(input@, pos as int, k),
        r matches Some((_, q)) ==> pos < q <= input@.len(),
{
    match statement(input, pos, k) {
        None => None,
        Some(q) => match parse_i32(input, q) {
            None => None,
            Some((v, e)) => {
                Some((v, statement_end_at(input, e)))
            },
        },
    }
}

/// A statement of keyword `k` whose payload is one unsigned integer.
pub open spec fn uint_statement(s: Seq<u8>, p: int, k: Keyword) -> Option<(u32, int)> {
    match statement_start(s, p, k) {
        None => None,
        Some(q) => match u32_at(s, q) {
            None => None,
            Some((v, e)) => Some((v, statement_end(s, e))),
        },
    }
}

pub fn parse_uint_statement(input: &[u8], pos: usize, k: Keyword) -> (r: Option<(u32, usize)>)
    requires
        pos <= input@.len(),
    ensures
        at(r) == uint_statement(input@, pos as int, k),
        r matches Some((_, q)) ==> pos < q <= input@.len(),
{
    match statement(input, pos, k) {
        None => None,
        Some(q) => match parse_u32(input, q) {
            None => None,
            Some((v, e)) => {
                Some((v, statement_end_at(input, e)))
            },
        },
    }
}

/// A statement of keyword `k` whose payload is a pair of integers.
pub open spec fn coord_statement(s: Seq<u8>, p: int, k: Keyword) -> Option<(Coord, int)> {
    match statement_start(s, p, k) {
        None => None,
        Some(q) => match coord_at(s, q) {
            None => None,
            Some((v, e)) => Some((v, statement_end(s, e))),
        },
    }
}

pub fn parse_coord_statement(input: &[u8], pos: usize, k: Keyword) -> (r: Option<(Coord, usize)>)
    requires
        pos <= input@.len(),
    ensures
        at(r) == coord_statement(input@, pos as int, k),
        r matches Some((_, q)) ==> pos < q <= input@.len(),
{
    match statement(input, pos, k) {
        None => None,
        Some(q) => match parse_coord(input, q) {
            None => None,
            Some((v, e)) => Some((v, statement_end_at(input, e))),
        },
    }
}

/// A statement of keyword `k` whose payload is a bounding box.
pub open spec fn bounding_box_statement(s: Seq<u8>, p: int, k: Keyword) -> Option<
    (BoundingBox, int),
> {
    match statement_start(s, p, k) {
        None => None,
        Some(q) => match bounding_box_at(s, q) {
            None => None,
            Some((v, e)) => Some((v, statement_end(s, e))),
        },
    }
}

pub fn parse_bounding_box_statement(input: &[u8], pos: usize, k: Keyword) -> (r: Option<
    (BoundingBox, usize),
>)
    requires
        pos <= input@.len(),
    ensures
        at(r) == bounding_box_statement(input@, pos as int, k),
        r matches Some((b, q)) ==> pos < q <= input@.len() && b.valid(),
{
    match statement(input, pos, k) {
        None => None,
        Some(q) => match parse_bounding_box(input, q) {
            None => None,
            Some((v, e)) => {
                Some((v, statement_end_at(input, e)))
            },
        },
    }
}

/// A parse result whose value is seen through its view.
pub open spec fn viewed<T: View>(r: Option<(T, usize)>) -> Option<(T::V, int)> {
    match r {
        Some((v, q)) => Some((v@, q as int)),
        None => None,
    }
}

} // verus!
