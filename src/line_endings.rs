//! Unix and Windows line endings read alike: a file whose lines end in
//! `\r\n` spells the same font as the file with `\n` in their place.
//!
//! The proof follows each parser along the map from a position of the
//! `\n` text to the matching position of the `\r\n` text, and shows that
//! every parser gives the same value there and ends at the mapped position.
use vstd::prelude::*;

use crate::helpers::{
    bounding_box_at, bounding_box_statement, comment_at, comments_from, coord_at, coord_statement,
    has_keyword, has_tag, i32_at, i64_at, int_statement, is_space, lemma_span, line_ending_len,
    comment_text_end, line_text, magnitude, signed_int, skip_comments, span, statement_end,
    statement_start,
    text_between, text_statement, u32_at, uint_statement, is_digit, ByteClass, Keyword, CR, DOT, LF,
    QUOTE,
};
use crate::glyph::{bitmap_at, glyph_at, optional_coord, row_at, rows_from, GlyphView};
use crate::metadata::{metadata_at, size_statement, version_statement};
use crate::properties::{entries_from, properties_at, property_at, PropertyValueView};
use crate::{chars_section, font_at, font_end, glyphs_from, properties_section};

verus! {

/// The bytes that a byte becomes when line feeds are written as `\r\n`.
pub open spec fn crlf_piece(b: u8) -> Seq<u8> {
    if b == LF {
        seq![CR, LF]
    } else {
        seq![b]
    }
}

/// `s` with every line feed written as a carriage return and a line feed.
pub open spec fn crlf(s: Seq<u8>) -> Seq<u8>
    decreases s.len(),
{
    if s.len() == 0 {
        Seq::empty()
    } else {
        crlf(s.drop_last()) + crlf_piece(s.last())
    }
}

/// The number of line feeds in `s` before position `p`.
pub open spec fn lf_count(s: Seq<u8>, p: int) -> int
    decreases p,
{
    if p <= 0 {
        0
    } else {
        lf_count(s, p - 1) + if p - 1 < s.len() && s[p - 1] == LF {
            1int
        } else {
            0int
        }
    }
}

/// Where position `p` of `s` lands in `crlf(s)`.
pub open spec fn crlf_pos(s: Seq<u8>, p: int) -> int {
    p + lf_count(s, p)
}

/// `s` holds no carriage return.
pub open spec fn no_cr(s: Seq<u8>) -> bool {
    forall|i: int| 0 <= i < s.len() ==> #[trigger] s[i] != CR
}

/// A parse result with its end position carried over to `crlf(s)`.
pub open spec fn shifted<T>(s: Seq<u8>, r: Option<(T, int)>) -> Option<(T, int)> {
    match r {
        Some((v, q)) => Some((v, crlf_pos(s, q))),
        None => None,
    }
}

proof fn lemma_crlf_concat(a: Seq<u8>, b: Seq<u8>)
    ensures
        crlf(a + b) == crlf(a) + crlf(b),
    decreases b.len(),
{
    if b.len() == 0 {
        assert(a + b =~= a);
        assert(crlf(a) + crlf(b) =~= crlf(a));
    } else {
        assert((a + b).drop_last() =~= a + b.drop_last());
        lemma_crlf_concat(a, b.drop_last());
        assert(crlf(a + b) =~= crlf(a) + crlf(b));
    }
}

proof fn lemma_crlf_prefix(s: Seq<u8>, p: int)
    requires
        0 <= p <= s.len(),
    ensures
        crlf(s.subrange(0, p)).len() == crlf_pos(s, p),
    decreases p,
{
    if p > 0 {
        lemma_crlf_prefix(s, p - 1);
        assert(s.subrange(0, p).drop_last() =~= s.subrange(0, p - 1));
    }
}

proof fn lemma_crlf_pos_step(s: Seq<u8>, p: int)
    ensures
        crlf_pos(s, p + 1) == crlf_pos(s, p) + if 0 <= p < s.len() && s[p] == LF {
            2int
        } else {
            1int
        },
{
    if p < 0 {
        assert(lf_count(s, p + 1) == 0);
        assert(lf_count(s, p) == 0);
    }
}

proof fn lemma_crlf_pos_mono(s: Seq<u8>, p: int, q: int)
    requires
        p <= q,
    ensures
        crlf_pos(s, p) + (q - p) <= crlf_pos(s, q),
    decreases q - p,
{
    if p < q {
        lemma_crlf_pos_mono(s, p, q - 1);
        lemma_crlf_pos_step(s, q - 1);
    }
}

/// The byte at position `p` of `s` and the bytes it became in `crlf(s)`.
proof fn lemma_crlf_byte(s: Seq<u8>, p: int)
    ensures
        crlf(s).len() == crlf_pos(s, s.len() as int),
        (0 <= p < s.len()) <==> (0 <= crlf_pos(s, p) < crlf(s).len()),
        0 <= p < s.len() && s[p] != LF ==> crlf(s)[crlf_pos(s, p)] == s[p],
        0 <= p < s.len() && s[p] == LF ==> crlf(s)[crlf_pos(s, p)] == CR && crlf(s)[crlf_pos(s, p)
            + 1] == LF,
        crlf_pos(s, p + 1) == crlf_pos(s, p) + if 0 <= p < s.len() && s[p] == LF {
            2int
        } else {
            1int
        },
{
    lemma_crlf_prefix(s, s.len() as int);
    assert(s.subrange(0, s.len() as int) =~= s);
    lemma_crlf_pos_step(s, p);
    if p < 0 {
        lemma_crlf_pos_mono(s, p, 0);
        assert(lf_count(s, 0) == 0);
    } else if p >= s.len() {
        lemma_crlf_pos_mono(s, s.len() as int, p);
    } else {
        lemma_crlf_prefix(s, p);
        let rest = s.subrange(p + 1, s.len() as int);
        assert(s =~= s.subrange(0, p) + (seq![s[p]] + rest));
        lemma_crlf_concat(s.subrange(0, p), seq![s[p]] + rest);
        lemma_crlf_concat(seq![s[p]], rest);
        let one = seq![s[p]];
        assert(one.drop_last() =~= Seq::<u8>::empty());
        assert(one.last() == s[p]);
        assert(crlf(one.drop_last()) =~= Seq::<u8>::empty());
        assert(crlf(one) =~= crlf_piece(s[p]));
        let t = crlf(s);
        assert(t =~= crlf(s.subrange(0, p)) + (crlf_piece(s[p]) + crlf(rest)));
        assert(t[crlf_pos(s, p)] == crlf_piece(s[p])[0]);
        if s[p] == LF {
            assert(t[crlf_pos(s, p) + 1] == crlf_piece(s[p])[1]);
        }
    }
}

/// Every class but the one that stops at line feeds alone holds a carriage
/// return exactly when it holds a line feed.
proof fn lemma_class_breaks(c: ByteClass)
    requires
        c != ByteClass::NotLineFeed,
    ensures
        c.contains(CR) == c.contains(LF),
        !ByteClass::Space.contains(LF),
{
}

proof fn lemma_crlf_span(s: Seq<u8>, p: int, c: ByteClass)
    requires
        no_cr(s),
        c != ByteClass::NotLineFeed,
    ensures
        span(crlf(s), crlf_pos(s, p), c) == crlf_pos(s, span(s, p, c)),
    decreases s.len() - p,
{
    let t = crlf(s);
    lemma_crlf_byte(s, p);
    lemma_class_breaks(c);
    if 0 <= p < s.len() && c.contains(s[p]) {
        lemma_crlf_span(s, p + 1, c);
        if s[p] == LF {
            assert(span(t, crlf_pos(s, p), c) == span(t, crlf_pos(s, p) + 1, c));
            assert(span(t, crlf_pos(s, p) + 1, c) == span(t, crlf_pos(s, p) + 2, c));
        }
    }
}

proof fn lemma_crlf_pos_order(s: Seq<u8>, p: int, q: int)
    ensures
        (p < q) == (crlf_pos(s, p) < crlf_pos(s, q)),
        (p == q) == (crlf_pos(s, p) == crlf_pos(s, q)),
        crlf(s).len() == crlf_pos(s, s.len() as int),
{
    lemma_crlf_byte(s, 0);
    if p < q {
        lemma_crlf_pos_mono(s, p, q);
    } else {
        lemma_crlf_pos_mono(s, q, p);
    }
}

/// No byte of `t` is a carriage return or a line feed.
pub open spec fn single_line(t: Seq<u8>) -> bool {
    forall|i: int| 0 <= i < t.len() ==> #[trigger] t[i] != CR && t[i] != LF
}

proof fn lemma_has_tag_step(s: Seq<u8>, p: int, t: Seq<u8>)
    ensures
        has_tag(s, p, t) == if t.len() == 0 {
            0 <= p <= s.len()
        } else {
            0 <= p < s.len() && s[p] == t[0] && has_tag(s, p + 1, t.drop_first())
        },
{
    if t.len() > 0 && 0 <= p && p + t.len() <= s.len() {
        let w = s.subrange(p, p + t.len());
        if w == t {
            assert(w[0] == s[p]);
            assert(s.subrange(p + 1, p + 1 + t.drop_first().len()) =~= t.drop_first());
        }
        if s[p] == t[0] && has_tag(s, p + 1, t.drop_first()) {
            assert(w =~= t) by {
                assert forall|i: int| 0 <= i < t.len() implies w[i] == t[i] by {
                    if i > 0 {
                        assert(s.subrange(p + 1, p + 1 + t.drop_first().len())[i - 1] == s[p + i]);
                    }
                }
            }
        }
    }
    if t.len() == 0 && 0 <= p <= s.len() {
        assert(s.subrange(p, p) =~= t);
    }
}

proof fn lemma_crlf_tag(s: Seq<u8>, p: int, t: Seq<u8>)
    requires
        no_cr(s),
        single_line(t),
    ensures
        has_tag(crlf(s), crlf_pos(s, p), t) == has_tag(s, p, t),
    decreases t.len(),
{
    lemma_has_tag_step(s, p, t);
    lemma_has_tag_step(crlf(s), crlf_pos(s, p), t);
    lemma_crlf_byte(s, p);
    lemma_crlf_pos_order(s, p, s.len() as int);
    lemma_crlf_pos_order(s, p, 0);
    assert(crlf_pos(s, 0) == 0);
    if t.len() > 0 {
        assert(t[0] != CR && t[0] != LF);
        assert forall|i: int| 0 <= i < t.drop_first().len() implies #[trigger] t.drop_first()[i]
            != CR && t.drop_first()[i] != LF by {
            assert(t.drop_first()[i] == t[i + 1]);
        }
        lemma_crlf_tag(s, p + 1, t.drop_first());
    }
}

proof fn lemma_keyword_single_line(k: Keyword)
    ensures
        single_line(k.text()),
        k.text().len() > 0,
{
    reveal_strlit("STARTFONT");
    reveal_strlit("FONT");
    reveal_strlit("SIZE");
    reveal_strlit("FONTBOUNDINGBOX");
    reveal_strlit("STARTPROPERTIES");
    reveal_strlit("ENDPROPERTIES");
    reveal_strlit("CHARS");
    reveal_strlit("STARTCHAR");
    reveal_strlit("ENCODING");
    reveal_strlit("SWIDTH");
    reveal_strlit("DWIDTH");
    reveal_strlit("BBX");
    reveal_strlit("BITMAP");
    reveal_strlit("ENDCHAR");
    reveal_strlit("ENDFONT");
    reveal_strlit("COMMENT");
    let t = k.text();
    assert forall|i: int| 0 <= i < t.len() implies #[trigger] t[i] != CR && t[i] != LF by {
        assert(0x41 <= t[i] <= 0x5a);
    }
}

proof fn lemma_crlf_line_ending(s: Seq<u8>, p: int)
    requires
        no_cr(s),
    ensures
        crlf_pos(s, p) + line_ending_len(crlf(s), crlf_pos(s, p)) == crlf_pos(
            s,
            p + line_ending_len(s, p),
        ),
        (line_ending_len(crlf(s), crlf_pos(s, p)) > 0) == (line_ending_len(s, p) > 0),
{
    lemma_crlf_byte(s, p);
    lemma_crlf_byte(s, p + 1);
    lemma_crlf_pos_order(s, p + 1, s.len() as int);
}

/// Between `p` and `e` the two texts agree where `s` holds no line feed.
proof fn lemma_crlf_plain(s: Seq<u8>, p: int, e: int)
    requires
        0 <= p <= e <= s.len(),
        forall|i: int| p <= i < e ==> #[trigger] s[i] != LF,
    ensures
        crlf_pos(s, e) == crlf_pos(s, p) + (e - p),
        crlf(s).subrange(crlf_pos(s, p), crlf_pos(s, e)) == s.subrange(p, e),
    decreases e - p,
{
    lemma_crlf_byte(s, p);
    lemma_crlf_pos_order(s, e, s.len() as int);
    if p < e {
        lemma_crlf_plain(s, p + 1, e);
        let t = crlf(s);
        assert(t.subrange(crlf_pos(s, p), crlf_pos(s, e)) =~= s.subrange(p, e)) by {
            assert forall|i: int| 0 <= i < e - p implies t.subrange(
                crlf_pos(s, p),
                crlf_pos(s, e),
            )[i] == s.subrange(p, e)[i] by {
                if i > 0 {
                    assert(t.subrange(crlf_pos(s, p + 1), crlf_pos(s, e))[i - 1] == s.subrange(
                        p + 1,
                        e,
                    )[i - 1]);
                }
            }
        }
    }
}

proof fn lemma_crlf_text(s: Seq<u8>, p: int, e: int)
    requires
        0 <= p <= e <= s.len(),
        forall|i: int| p <= i < e ==> #[trigger] s[i] != LF,
    ensures
        crlf_pos(s, e) == crlf_pos(s, p) + (e - p),
        text_between(crlf(s), crlf_pos(s, p), crlf_pos(s, e)) == text_between(s, p, e),
{
    lemma_crlf_plain(s, p, e);
}

/// Within a run of a class without line breaks, the two texts agree.
proof fn lemma_crlf_run(s: Seq<u8>, p: int, c: ByteClass)
    requires
        no_cr(s),
        0 <= p <= s.len(),
        !c.contains(LF),
        c != ByteClass::NotLineFeed,
    ensures
        span(crlf(s), crlf_pos(s, p), c) == crlf_pos(s, span(s, p, c)),
        crlf_pos(s, span(s, p, c)) == crlf_pos(s, p) + (span(s, p, c) - p),
        text_between(crlf(s), crlf_pos(s, p), crlf_pos(s, span(s, p, c))) == text_between(
            s,
            p,
            span(s, p, c),
        ),
        crlf(s).subrange(crlf_pos(s, p), crlf_pos(s, span(s, p, c))) == s.subrange(
            p,
            span(s, p, c),
        ),
{
    lemma_crlf_span(s, p, c);
    lemma_span(s, p, c);
    lemma_crlf_plain(s, p, span(s, p, c));
}

proof fn lemma_crlf_statement_start(s: Seq<u8>, p: int, k: Keyword)
    requires
        no_cr(s),
    ensures
        statement_start(crlf(s), crlf_pos(s, p), k) == match statement_start(s, p, k) {
            Some(q) => Some(crlf_pos(s, q)),
            None => None,
        },
        statement_start(s, p, k) matches Some(q) ==> 0 <= q <= s.len(),
{
    let a = span(s, p, ByteClass::Whitespace);
    lemma_crlf_span(s, p, ByteClass::Whitespace);
    lemma_keyword_single_line(k);
    lemma_crlf_tag(s, a, k.text());
    if has_keyword(s, a, k) {
        let b = a + k.text().len();
        assert forall|i: int| a <= i < b implies #[trigger] s[i] != LF by {
            assert(s.subrange(a, b)[i - a] == s[i]);
        }
        lemma_crlf_plain(s, a, b);
        lemma_crlf_byte(s, b);
        lemma_crlf_span(s, b, ByteClass::Space);
        lemma_span(s, b, ByteClass::Space);
    }
}

proof fn lemma_crlf_statement_end(s: Seq<u8>, p: int)
    requires
        no_cr(s),
    ensures
        statement_end(crlf(s), crlf_pos(s, p)) == crlf_pos(s, statement_end(s, p)),
{
    lemma_crlf_span(s, p, ByteClass::Space);
    lemma_crlf_line_ending(s, span(s, p, ByteClass::Space));
}

proof fn lemma_crlf_magnitude(s: Seq<u8>, p: int, limit: nat)
    requires
        no_cr(s),
    ensures
        magnitude(crlf(s), crlf_pos(s, p), limit) == shifted(s, magnitude(s, p, limit)),
{
    lemma_crlf_span(s, p, ByteClass::Digit);
    let e = span(s, p, ByteClass::Digit);
    lemma_crlf_pos_order(s, p, e);
    if 0 <= p <= s.len() {
        lemma_crlf_run(s, p, ByteClass::Digit);
    }
}

proof fn lemma_crlf_signed(s: Seq<u8>, p: int, limit: nat)
    requires
        no_cr(s),
    ensures
        signed_int(crlf(s), crlf_pos(s, p), limit) == shifted(s, signed_int(s, p, limit)),
{
    lemma_crlf_byte(s, p);
    lemma_crlf_magnitude(s, p, limit);
    lemma_crlf_magnitude(s, p + 1, limit);
    lemma_crlf_magnitude(s, p, limit + 1);
    lemma_crlf_magnitude(s, p + 1, limit + 1);
}

proof fn lemma_crlf_numbers(s: Seq<u8>, p: int)
    requires
        no_cr(s),
    ensures
        u32_at(crlf(s), crlf_pos(s, p)) == shifted(s, u32_at(s, p)),
        i32_at(crlf(s), crlf_pos(s, p)) == shifted(s, i32_at(s, p)),
        i64_at(crlf(s), crlf_pos(s, p)) == shifted(s, i64_at(s, p)),
{
    lemma_crlf_magnitude(s, p, u32::MAX as nat);
    lemma_crlf_signed(s, p, i32::MAX as nat);
    lemma_crlf_signed(s, p, i64::MAX as nat);
}

proof fn lemma_crlf_line_text(s: Seq<u8>, p: int)
    requires
        no_cr(s),
        0 <= p <= s.len(),
    ensures
        line_text(crlf(s), crlf_pos(s, p)) == (line_text(s, p).0, crlf_pos(s, line_text(s, p).1)),
{
    lemma_crlf_run(s, p, ByteClass::LineContent);
}

/// A run up to a line feed takes in the carriage return written before it.
proof fn lemma_crlf_span_line(s: Seq<u8>, p: int)
    requires
        no_cr(s),
        0 <= p <= s.len(),
    ensures
        span(s, p, ByteClass::NotLineFeed) < s.len() ==> span(
            crlf(s),
            crlf_pos(s, p),
            ByteClass::NotLineFeed,
        ) == crlf_pos(s, span(s, p, ByteClass::NotLineFeed)) + 1,
        span(s, p, ByteClass::NotLineFeed) == s.len() ==> span(
            crlf(s),
            crlf_pos(s, p),
            ByteClass::NotLineFeed,
        ) == crlf(s).len(),
    decreases s.len() - p,
{
    let t = crlf(s);
    lemma_crlf_byte(s, p);
    lemma_crlf_pos_order(s, p, s.len() as int);
    if p < s.len() {
        if s[p] == LF {
            lemma_crlf_byte(s, p + 1);
            assert(span(t, crlf_pos(s, p), ByteClass::NotLineFeed) == span(
                t,
                crlf_pos(s, p) + 1,
                ByteClass::NotLineFeed,
            ));
        } else {
            lemma_crlf_span_line(s, p + 1);
        }
    }
}

proof fn lemma_crlf_comment(s: Seq<u8>, p: int)
    requires
        no_cr(s),
    ensures
        comment_at(crlf(s), crlf_pos(s, p)) == shifted(s, comment_at(s, p)),
{
    let t = crlf(s);
    let k = p + Keyword::Comment.text().len();
    lemma_keyword_single_line(Keyword::Comment);
    lemma_crlf_tag(s, p, Keyword::Comment.text());
    if has_keyword(s, p, Keyword::Comment) {
        assert forall|i: int| p <= i < k implies #[trigger] s[i] != LF by {
            assert(s.subrange(p, k)[i - p] == s[i]);
        }
        lemma_crlf_plain(s, p, k);
        let b = span(s, k, ByteClass::Space);
        lemma_crlf_span(s, k, ByteClass::Space);
        lemma_span(s, k, ByteClass::Space);
        let e = span(s, b, ByteClass::NotLineFeed);
        lemma_span(s, b, ByteClass::NotLineFeed);
        lemma_crlf_span_line(s, b);
        assert forall|i: int| b <= i < e implies #[trigger] s[i] != LF by {
            assert(ByteClass::NotLineFeed.contains(s[i]));
        }
        lemma_crlf_plain(s, b, e);
        lemma_crlf_pos_order(s, k, b);
        lemma_crlf_pos_order(s, b, e);
        lemma_crlf_pos_order(s, e, k);
        lemma_crlf_pos_order(s, e, s.len() as int);
        lemma_crlf_byte(s, e);
        if e > b {
            lemma_crlf_byte(s, e - 1);
        }
        assert(comment_text_end(s, b, e) == e);
        if e < s.len() {
            assert(comment_text_end(t, crlf_pos(s, b), crlf_pos(s, e) + 1) == crlf_pos(s, e));
            assert(crlf_pos(s, e + 1) == crlf_pos(s, e) + 2);
        } else {
            assert(comment_text_end(t, crlf_pos(s, b), crlf_pos(s, e)) == crlf_pos(s, e));
        }
    }
}

proof fn lemma_crlf_comments_from(s: Seq<u8>, p: int, acc: Seq<Seq<char>>)
    requires
        no_cr(s),
    ensures
        comments_from(crlf(s), crlf_pos(s, p), acc) == (
            comments_from(s, p, acc).0,
            crlf_pos(s, comments_from(s, p, acc).1),
        ),
    decreases s.len() - p,
{
    let a = span(s, p, ByteClass::Whitespace);
    lemma_crlf_span(s, p, ByteClass::Whitespace);
    lemma_crlf_comment(s, a);
    match comment_at(s, a) {
        Some((t, q)) => {
            lemma_crlf_pos_order(s, p, q);
            lemma_crlf_pos_order(s, q, s.len() as int);
            if p < q <= s.len() {
                lemma_crlf_comments_from(s, q, acc.push(t));
            }
        },
        None => {},
    }
}

proof fn lemma_crlf_skip_comments(s: Seq<u8>, p: int)
    requires
        no_cr(s),
    ensures
        skip_comments(crlf(s), crlf_pos(s, p)) == crlf_pos(s, skip_comments(s, p)),
{
    lemma_crlf_comments_from(s, p, Seq::empty());
}

proof fn lemma_crlf_space_gap(s: Seq<u8>, a: int)
    requires
        no_cr(s),
    ensures
        (0 <= crlf_pos(s, a) < crlf(s).len() && is_space(crlf(s)[crlf_pos(s, a)])) == (0 <= a
            < s.len() && is_space(s[a])),
        span(crlf(s), crlf_pos(s, a), ByteClass::Space) == crlf_pos(s, span(s, a, ByteClass::Space)),
{
    lemma_crlf_byte(s, a);
    lemma_crlf_span(s, a, ByteClass::Space);
}

proof fn lemma_crlf_coord(s: Seq<u8>, p: int)
    requires
        no_cr(s),
    ensures
        coord_at(crlf(s), crlf_pos(s, p)) == shifted(s, coord_at(s, p)),
{
    lemma_crlf_numbers(s, p);
    match i32_at(s, p) {
        None => {},
        Some((x, a)) => {
            lemma_crlf_space_gap(s, a);
            lemma_crlf_numbers(s, span(s, a, ByteClass::Space));
        },
    }
}

proof fn lemma_crlf_bounding_box(s: Seq<u8>, p: int)
    requires
        no_cr(s),
    ensures
        bounding_box_at(crlf(s), crlf_pos(s, p)) == shifted(s, bounding_box_at(s, p)),
{
    lemma_crlf_coord(s, p);
    match coord_at(s, p) {
        None => {},
        Some((size, a)) => {
            lemma_crlf_space_gap(s, a);
            lemma_crlf_coord(s, span(s, a, ByteClass::Space));
        },
    }
}

proof fn lemma_crlf_statements(s: Seq<u8>, p: int, k: Keyword)
    requires
        no_cr(s),
    ensures
        text_statement(crlf(s), crlf_pos(s, p), k) == shifted(s, text_statement(s, p, k)),
        int_statement(crlf(s), crlf_pos(s, p), k) == shifted(s, int_statement(s, p, k)),
        uint_statement(crlf(s), crlf_pos(s, p), k) == shifted(s, uint_statement(s, p, k)),
        coord_statement(crlf(s), crlf_pos(s, p), k) == shifted(s, coord_statement(s, p, k)),
        bounding_box_statement(crlf(s), crlf_pos(s, p), k) == shifted(
            s,
            bounding_box_statement(s, p, k),
        ),
{
    lemma_crlf_statement_start(s, p, k);
    match statement_start(s, p, k) {
        None => {},
        Some(q) => {
            lemma_crlf_line_text(s, q);
            lemma_crlf_statement_end(s, line_text(s, q).1);
            lemma_crlf_numbers(s, q);
            lemma_crlf_coord(s, q);
            lemma_crlf_bounding_box(s, q);
            match i32_at(s, q) {
                None => {},
                Some((_, e)) => lemma_crlf_statement_end(s, e),
            }
            match u32_at(s, q) {
                None => {},
                Some((_, e)) => lemma_crlf_statement_end(s, e),
            }
            match coord_at(s, q) {
                None => {},
                Some((_, e)) => lemma_crlf_statement_end(s, e),
            }
            match bounding_box_at(s, q) {
                None => {},
                Some((_, e)) => lemma_crlf_statement_end(s, e),
            }
        },
    }
}

proof fn lemma_crlf_keyword_end(s: Seq<u8>, p: int, k: Keyword)
    requires
        no_cr(s),
        has_keyword(s, p, k),
    ensures
        has_keyword(crlf(s), crlf_pos(s, p), k),
        crlf_pos(s, p + k.text().len()) == crlf_pos(s, p) + k.text().len(),
        0 <= p,
        p + k.text().len() <= s.len(),
{
    lemma_keyword_single_line(k);
    lemma_crlf_tag(s, p, k.text());
    let e = p + k.text().len();
    assert forall|i: int| p <= i < e implies #[trigger] s[i] != LF by {
        assert(s.subrange(p, e)[i - p] == s[i]);
    }
    lemma_crlf_plain(s, p, e);
}

proof fn lemma_crlf_keyword(s: Seq<u8>, p: int, k: Keyword)
    requires
        no_cr(s),
    ensures
        has_keyword(crlf(s), crlf_pos(s, p), k) == has_keyword(s, p, k),
        has_keyword(s, p, k) ==> crlf_pos(s, p + k.text().len()) == crlf_pos(s, p)
            + k.text().len(),
{
    lemma_keyword_single_line(k);
    lemma_crlf_tag(s, p, k.text());
    if has_keyword(s, p, k) {
        lemma_crlf_keyword_end(s, p, k);
    }
}

proof fn lemma_crlf_version(s: Seq<u8>, p: int)
    requires
        no_cr(s),
    ensures
        version_statement(crlf(s), crlf_pos(s, p)) == shifted(s, version_statement(s, p)),
{
    lemma_crlf_statement_start(s, p, Keyword::StartFont);
    match statement_start(s, p, Keyword::StartFont) {
        None => {},
        Some(q) => {
            let a = span(s, q, ByteClass::Digit);
            lemma_crlf_span(s, q, ByteClass::Digit);
            lemma_span(s, q, ByteClass::Digit);
            lemma_crlf_byte(s, a);
            lemma_crlf_byte(s, a + 1);
            lemma_crlf_pos_order(s, a, q);
            lemma_crlf_pos_order(s, a + 1, s.len() as int);
            if a + 1 < s.len() && s[a] == DOT && is_digit(s[a + 1]) {
                let e = span(s, a + 1, ByteClass::Digit);
                lemma_crlf_span(s, a + 1, ByteClass::Digit);
                lemma_span(s, a + 1, ByteClass::Digit);
                assert forall|i: int| q <= i < e implies #[trigger] s[i] != LF by {
                    if i < a {
                        assert(ByteClass::Digit.contains(s[i]));
                    } else if i > a {
                        assert(ByteClass::Digit.contains(s[i]));
                    }
                }
                lemma_crlf_text(s, q, e);
                lemma_crlf_statement_end(s, e);
            } else if q < a {
                assert forall|i: int| q <= i < a implies #[trigger] s[i] != LF by {
                    assert(ByteClass::Digit.contains(s[i]));
                }
                lemma_crlf_text(s, q, a);
                lemma_crlf_statement_end(s, a);
            }
        },
    }
}

proof fn lemma_crlf_size(s: Seq<u8>, p: int)
    requires
        no_cr(s),
    ensures
        size_statement(crlf(s), crlf_pos(s, p)) == shifted(s, size_statement(s, p)),
{
    lemma_crlf_statement_start(s, p, Keyword::Size);
    match statement_start(s, p, Keyword::Size) {
        None => {},
        Some(q) => {
            lemma_crlf_numbers(s, q);
            match i32_at(s, q) {
                None => {},
                Some((_, a)) => {
                    lemma_crlf_space_gap(s, a);
                    lemma_crlf_numbers(s, span(s, a, ByteClass::Space));
                    match u32_at(s, span(s, a, ByteClass::Space)) {
                        None => {},
                        Some((_, b)) => {
                            lemma_crlf_space_gap(s, b);
                            lemma_crlf_numbers(s, span(s, b, ByteClass::Space));
                            match u32_at(s, span(s, b, ByteClass::Space)) {
                                None => {},
                                Some((_, e)) => lemma_crlf_statement_end(s, e),
                            }
                        },
                    }
                },
            }
        },
    }
}

proof fn lemma_crlf_metadata(s: Seq<u8>, p: int)
    requires
        no_cr(s),
    ensures
        metadata_at(crlf(s), crlf_pos(s, p)) == shifted(s, metadata_at(s, p)),
{
    lemma_crlf_skip_comments(s, p);
    let q0 = skip_comments(s, p);
    lemma_crlf_version(s, q0);
    match version_statement(s, q0) {
        None => {},
        Some((_, q1)) => {
            lemma_crlf_skip_comments(s, q1);
            lemma_crlf_statements(s, skip_comments(s, q1), Keyword::Font);
            match text_statement(s, skip_comments(s, q1), Keyword::Font) {
                None => {},
                Some((_, q2)) => {
                    lemma_crlf_skip_comments(s, q2);
                    lemma_crlf_size(s, skip_comments(s, q2));
                    match size_statement(s, skip_comments(s, q2)) {
                        None => {},
                        Some((_, q3)) => {
                            lemma_crlf_skip_comments(s, q3);
                            lemma_crlf_statements(
                                s,
                                skip_comments(s, q3),
                                Keyword::FontBoundingBox,
                            );
                            match bounding_box_statement(
                                s,
                                skip_comments(s, q3),
                                Keyword::FontBoundingBox,
                            ) {
                                None => {},
                                Some((_, q4)) => lemma_crlf_span(s, q4, ByteClass::Whitespace),
                            }
                        },
                    }
                },
            }
        },
    }
}

proof fn lemma_crlf_property(s: Seq<u8>, p: int)
    requires
        no_cr(s),
    ensures
        property_at(crlf(s), crlf_pos(s, p)) == shifted(s, property_at(s, p)),
{
    let k = span(s, p, ByteClass::Word);
    lemma_crlf_span(s, p, ByteClass::Word);
    lemma_crlf_pos_order(s, p, k);
    if 0 <= p <= s.len() {
        lemma_crlf_run(s, p, ByteClass::Word);
        lemma_span(s, p, ByteClass::Word);
        let v = span(s, k, ByteClass::Space);
        lemma_crlf_space_gap(s, k);
        lemma_span(s, k, ByteClass::Space);
        lemma_crlf_byte(s, v);
        lemma_crlf_numbers(s, v);
        if p < k && k < s.len() && is_space(s[k]) {
            if v < s.len() && s[v] == QUOTE {
                let c = span(s, v + 1, ByteClass::QuotedContent);
                lemma_crlf_run(s, v + 1, ByteClass::QuotedContent);
                lemma_span(s, v + 1, ByteClass::QuotedContent);
                lemma_crlf_byte(s, c);
                lemma_crlf_statement_end(s, c + 1);
            } else {
                match i64_at(s, v) {
                    None => {},
                    Some((_, e)) => lemma_crlf_statement_end(s, e),
                }
            }
        }
    }
}

proof fn lemma_crlf_entries(
    s: Seq<u8>,
    p: int,
    m: Map<Seq<char>, PropertyValueView>,
)
    requires
        no_cr(s),
    ensures
        entries_from(crlf(s), crlf_pos(s, p), m) == shifted(s, entries_from(s, p, m)),
    decreases s.len() - p,
{
    let a = skip_comments(s, p);
    lemma_crlf_skip_comments(s, p);
    lemma_crlf_keyword(s, a, Keyword::EndProperties);
    if has_keyword(s, a, Keyword::EndProperties) {
        lemma_crlf_statement_end(s, a + Keyword::EndProperties.text().len());
    } else {
        lemma_crlf_property(s, a);
        match property_at(s, a) {
            None => {},
            Some(((k, v), q)) => {
                lemma_crlf_pos_order(s, p, q);
                lemma_crlf_pos_order(s, q, s.len() as int);
                if p < q <= s.len() {
                    lemma_crlf_entries(s, q, m.insert(k, v));
                }
            },
        }
    }
}

proof fn lemma_crlf_properties(s: Seq<u8>, p: int)
    requires
        no_cr(s),
    ensures
        properties_at(crlf(s), crlf_pos(s, p)) == shifted(s, properties_at(s, p)),
{
    lemma_crlf_statements(s, p, Keyword::StartProperties);
    match uint_statement(s, p, Keyword::StartProperties) {
        None => {},
        Some((_, q)) => lemma_crlf_entries(s, q, Map::empty()),
    }
}

proof fn lemma_crlf_row(s: Seq<u8>, p: int)
    requires
        no_cr(s),
    ensures
        row_at(crlf(s), crlf_pos(s, p)) == shifted(s, row_at(s, p)),
{
    let e = span(s, p, ByteClass::HexDigit);
    lemma_crlf_span(s, p, ByteClass::HexDigit);
    lemma_crlf_pos_order(s, p, e);
    if 0 <= p <= s.len() {
        lemma_crlf_run(s, p, ByteClass::HexDigit);
        let t = span(s, e, ByteClass::Space);
        lemma_crlf_span(s, e, ByteClass::Space);
        lemma_crlf_line_ending(s, t);
    }
}

proof fn lemma_crlf_rows(s: Seq<u8>, p: int, acc: Seq<Seq<u8>>)
    requires
        no_cr(s),
    ensures
        rows_from(crlf(s), crlf_pos(s, p), acc) == shifted(s, rows_from(s, p, acc)),
    decreases s.len() - p,
{
    let a = span(s, p, ByteClass::Whitespace);
    lemma_crlf_span(s, p, ByteClass::Whitespace);
    lemma_crlf_keyword(s, a, Keyword::EndChar);
    if !has_keyword(s, a, Keyword::EndChar) {
        lemma_crlf_row(s, a);
        match row_at(s, a) {
            None => {},
            Some((row, q)) => {
                lemma_crlf_pos_order(s, p, q);
                lemma_crlf_pos_order(s, q, s.len() as int);
                if p < q <= s.len() {
                    lemma_crlf_rows(s, q, acc.push(row));
                }
            },
        }
    }
}

proof fn lemma_crlf_bitmap(s: Seq<u8>, p: int)
    requires
        no_cr(s),
    ensures
        bitmap_at(crlf(s), crlf_pos(s, p)) == shifted(s, bitmap_at(s, p)),
{
    lemma_crlf_keyword(s, p, Keyword::Bitmap);
    if has_keyword(s, p, Keyword::Bitmap) {
        let b = p + Keyword::Bitmap.text().len();
        lemma_crlf_statement_end(s, b);
        lemma_crlf_rows(s, statement_end(s, b), Seq::empty());
    }
}

proof fn lemma_crlf_glyph(s: Seq<u8>, p: int)
    requires
        no_cr(s),
    ensures
        glyph_at(crlf(s), crlf_pos(s, p)) == shifted(s, glyph_at(s, p)),
{
    lemma_crlf_statements(s, p, Keyword::StartChar);
    match text_statement(s, p, Keyword::StartChar) {
        None => {},
        Some((_, q1)) => {
            lemma_crlf_statements(s, q1, Keyword::Encoding);
            match int_statement(s, q1, Keyword::Encoding) {
                None => {},
                Some((_, q2)) => {
                    lemma_crlf_statements(s, q2, Keyword::SWidth);
                    let q3 = optional_coord(s, q2, Keyword::SWidth).1;
                    lemma_crlf_statements(s, q3, Keyword::DWidth);
                    let q4 = optional_coord(s, q3, Keyword::DWidth).1;
                    lemma_crlf_statements(s, q4, Keyword::Bbx);
                    match bounding_box_statement(s, q4, Keyword::Bbx) {
                        None => {},
                        Some((_, q5)) => {
                            lemma_crlf_span(s, q5, ByteClass::Whitespace);
                            lemma_crlf_bitmap(s, span(s, q5, ByteClass::Whitespace));
                        },
                    }
                },
            }
        },
    }
}

proof fn lemma_crlf_glyphs(s: Seq<u8>, p: int, acc: Seq<GlyphView>)
    requires
        no_cr(s),
    ensures
        glyphs_from(crlf(s), crlf_pos(s, p), acc) == shifted(s, glyphs_from(s, p, acc)),
    decreases s.len() - p,
{
    let a = span(s, p, ByteClass::Whitespace);
    lemma_crlf_span(s, p, ByteClass::Whitespace);
    lemma_crlf_keyword(s, a, Keyword::StartChar);
    if has_keyword(s, a, Keyword::StartChar) {
        lemma_crlf_glyph(s, a);
        match glyph_at(s, a) {
            None => {},
            Some((g, q)) => {
                lemma_crlf_pos_order(s, p, q);
                lemma_crlf_pos_order(s, q, s.len() as int);
                if p < q <= s.len() {
                    lemma_crlf_glyphs(s, q, acc.push(g));
                }
            },
        }
    }
}

/// Line endings do not change what a file spells: for a file without
/// carriage returns, writing each of its line feeds as `\r\n` gives the same
/// font, or the same error.
pub proof fn lemma_line_endings_agree(s: Seq<u8>)
    requires
        no_cr(s),
    ensures
        font_at(crlf(s)) == font_at(s),
{
    assert(crlf_pos(s, 0) == 0);
    lemma_crlf_metadata(s, 0);
    match metadata_at(s, 0) {
        None => {},
        Some((_, q1)) => {
            let a = span(s, q1, ByteClass::Whitespace);
            lemma_crlf_span(s, q1, ByteClass::Whitespace);
            lemma_crlf_keyword(s, a, Keyword::StartProperties);
            lemma_crlf_properties(s, a);
            match properties_section(s, a) {
                Err(_) => {},
                Ok((_, q2)) => {
                    let b = span(s, q2, ByteClass::Whitespace);
                    lemma_crlf_span(s, q2, ByteClass::Whitespace);
                    lemma_crlf_keyword(s, b, Keyword::Chars);
                    lemma_crlf_statements(s, b, Keyword::Chars);
                    match chars_section(s, b) {
                        None => {},
                        Some(q3) => {
                            lemma_crlf_glyphs(s, q3, Seq::empty());
                            match glyphs_from(s, q3, Seq::empty()) {
                                None => {},
                                Some((_, q4)) => {
                                    let c = span(s, q4, ByteClass::Whitespace);
                                    lemma_crlf_span(s, q4, ByteClass::Whitespace);
                                    lemma_crlf_keyword(s, c, Keyword::EndFont);
                                    let d = if has_keyword(s, c, Keyword::EndFont) {
                                        c + Keyword::EndFont.text().len()
                                    } else {
                                        c
                                    };
                                    lemma_crlf_span(s, d, ByteClass::Whitespace);
                                    lemma_crlf_pos_order(s, font_end(s, q4), s.len() as int);
                                },
                            }
                        },
                    }
                },
            }
        },
    }
}

} // verus!
