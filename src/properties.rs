//! The optional `STARTPROPERTIES` ... `ENDPROPERTIES` section: a table from
//! property names to integer or text values, with typed lookups for the
//! well-known properties.
use vstd::prelude::*;

use crate::helpers::{
    has_keyword, i64_at, is_space, keyword_at, lemma_span, blank_and_comment_lines, parse_i64,
    parse_uint_statement, scan, skip_comments, span, statement_end, statement_end_at,
    text_between, text_between_at, uint_statement, ByteClass, Keyword, QUOTE, SPACE, TAB,
};

verus! {

/// The value of a property.
#[derive(Debug, PartialEq)]
pub enum PropertyValue {
    Int(i64),
    Text(String),
}

/// What a [`PropertyValue`] holds, with a text as characters.
pub enum PropertyValueView {
    Int(i64),
    Text(Seq<char>),
}

impl View for PropertyValue {
    type V = PropertyValueView;

    open spec fn view(&self) -> PropertyValueView {
        match self {
            PropertyValue::Int(n) => PropertyValueView::Int(*n),
            PropertyValue::Text(t) => PropertyValueView::Text(t@),
        }
    }
}

/// The kind of value that a property holds.
#[derive(Clone, Copy, PartialEq, Eq, Debug, Structural)]
pub enum PropertyKind {
    Int,
    Text,
}

impl PropertyValueView {
    pub open spec fn kind(self) -> PropertyKind {
        match self {
            PropertyValueView::Int(_) => PropertyKind::Int,
            PropertyValueView::Text(_) => PropertyKind::Text,
        }
    }
}

/// Why a typed lookup failed.
#[derive(Clone, Copy, PartialEq, Eq, Debug, Structural)]
pub enum PropertyError {
    /// The font has no such property.
    Missing,
    /// The property holds a value of the other kind.
    TypeMismatch,
}

/// Well-known properties, each with the kind of value it holds.
#[derive(Clone, Copy, PartialEq, Eq, Debug, Structural)]
pub enum PropertyId {
    Foundry,
    FamilyName,
    WeightName,
    Slant,
    SetwidthName,
    AddStyleName,
    PixelSize,
    PointSize,
    ResolutionX,
    ResolutionY,
    Spacing,
    AverageWidth,
    CharsetRegistry,
    CharsetEncoding,
    FontAscent,
    FontDescent,
    DefaultChar,
    CapHeight,
    XHeight,
    Copyright,
    Notice,
    FaceName,
    FontVersion,
}

impl PropertyId {
    /// The property's name in a font file.
    pub open spec fn key(self) -> Seq<char> {
        match self {
            PropertyId::Foundry => "FOUNDRY"@,
            PropertyId::FamilyName => "FAMILY_NAME"@,
            PropertyId::WeightName => "WEIGHT_NAME"@,
            PropertyId::Slant => "SLANT"@,
            PropertyId::SetwidthName => "SETWIDTH_NAME"@,
            PropertyId::AddStyleName => "ADD_STYLE_NAME"@,
            PropertyId::PixelSize => "PIXEL_SIZE"@,
            PropertyId::PointSize => "POINT_SIZE"@,
            PropertyId::ResolutionX => "RESOLUTION_X"@,
            PropertyId::ResolutionY => "RESOLUTION_Y"@,
            PropertyId::Spacing => "SPACING"@,
            PropertyId::AverageWidth => "AVERAGE_WIDTH"@,
            PropertyId::CharsetRegistry => "CHARSET_REGISTRY"@,
            PropertyId::CharsetEncoding => "CHARSET_ENCODING"@,
            PropertyId::FontAscent => "FONT_ASCENT"@,
            PropertyId::FontDescent => "FONT_DESCENT"@,
            PropertyId::DefaultChar => "DEFAULT_CHAR"@,
            PropertyId::CapHeight => "CAP_HEIGHT"@,
            PropertyId::XHeight => "X_HEIGHT"@,
            PropertyId::Copyright => "COPYRIGHT"@,
            PropertyId::Notice => "NOTICE"@,
            PropertyId::FaceName => "FACE_NAME"@,
            PropertyId::FontVersion => "FONT_VERSION"@,
        }
    }

    /// The kind of value the property holds.
    pub open spec fn kind(self) -> PropertyKind {
        match self {
            PropertyId::PixelSize | PropertyId::PointSize | PropertyId::ResolutionX
            | PropertyId::ResolutionY | PropertyId::AverageWidth | PropertyId::FontAscent
            | PropertyId::FontDescent | PropertyId::DefaultChar | PropertyId::CapHeight
            | PropertyId::XHeight => PropertyKind::Int,
            _ => PropertyKind::Text,
        }
    }

    pub fn key_string(self) -> (r: String)
        ensures
            r@ == self.key(),
    {
        match self {
            PropertyId::Foundry => String::from_str("FOUNDRY"),
            PropertyId::FamilyName => String::from_str("FAMILY_NAME"),
            PropertyId::WeightName => String::from_str("WEIGHT_NAME"),
            PropertyId::Slant => String::from_str("SLANT"),
            PropertyId::SetwidthName => String::from_str("SETWIDTH_NAME"),
            PropertyId::AddStyleName => String::from_str("ADD_STYLE_NAME"),
            PropertyId::PixelSize => String::from_str("PIXEL_SIZE"),
            PropertyId::PointSize => String::from_str("POINT_SIZE"),
            PropertyId::ResolutionX => String::from_str("RESOLUTION_X"),
            PropertyId::ResolutionY => String::from_str("RESOLUTION_Y"),
            PropertyId::Spacing => String::from_str("SPACING"),
            PropertyId::AverageWidth => String::from_str("AVERAGE_WIDTH"),
            PropertyId::CharsetRegistry => String::from_str("CHARSET_REGISTRY"),
            PropertyId::CharsetEncoding => String::from_str("CHARSET_ENCODING"),
            PropertyId::FontAscent => String::from_str("FONT_ASCENT"),
            PropertyId::FontDescent => String::from_str("FONT_DESCENT"),
            PropertyId::DefaultChar => String::from_str("DEFAULT_CHAR"),
            PropertyId::CapHeight => String::from_str("CAP_HEIGHT"),
            PropertyId::XHeight => String::from_str("X_HEIGHT"),
            PropertyId::Copyright => String::from_str("COPYRIGHT"),
            PropertyId::Notice => String::from_str("NOTICE"),
            PropertyId::FaceName => String::from_str("FACE_NAME"),
            PropertyId::FontVersion => String::from_str("FONT_VERSION"),
        }
    }

    pub fn value_kind(self) -> (r: PropertyKind)
        ensures
            r == self.kind(),
    {
        match self {
            PropertyId::PixelSize | PropertyId::PointSize | PropertyId::ResolutionX
            | PropertyId::ResolutionY | PropertyId::AverageWidth | PropertyId::FontAscent
            | PropertyId::FontDescent | PropertyId::DefaultChar | PropertyId::CapHeight
            | PropertyId::XHeight => PropertyKind::Int,
            _ => PropertyKind::Text,
        }
    }
}

/// A property table entry as a pair of views.
pub type EntryView = (Seq<char>, PropertyValueView);

pub open spec fn entries_view(e: Seq<(String, PropertyValue)>) -> Seq<EntryView> {
    e.map_values(|x: (String, PropertyValue)| (x.0@, x.1@))
}

/// No two entries have the same name.
pub open spec fn keys_unique(e: Seq<EntryView>) -> bool {
    forall|i: int, j: int| 0 <= i < j < e.len() ==> #[trigger] e[i].0 != #[trigger] e[j].0
}

/// The map that entering the entries one after the other makes, a later
/// entry replacing an earlier one of the same name.
pub open spec fn entries_map(e: Seq<EntryView>) -> Map<Seq<char>, PropertyValueView>
    decreases e.len(),
{
    if e.len() == 0 {
        Map::empty()
    } else {
        entries_map(e.drop_last()).insert(e.last().0, e.last().1)
    }
}

proof fn lemma_entries_map_keys(e: Seq<EntryView>, k: Seq<char>)
    ensures
        entries_map(e).contains_key(k) <==> exists|i: int| 0 <= i < e.len() && e[i].0 == k,
    decreases e.len(),
{
    if e.len() > 0 {
        lemma_entries_map_keys(e.drop_last(), k);
        if exists|i: int| 0 <= i < e.len() && e[i].0 == k {
            let i = choose|i: int| 0 <= i < e.len() && e[i].0 == k;
            if i < e.len() - 1 {
                assert(e.drop_last()[i].0 == k);
            }
        }
        if exists|i: int| 0 <= i < e.len() - 1 && e.drop_last()[i].0 == k {
            let i = choose|i: int| 0 <= i < e.len() - 1 && e.drop_last()[i].0 == k;
            assert(e[i].0 == k);
        }
    }
}

proof fn lemma_entries_map_lookup(e: Seq<EntryView>, i: int)
    requires
        keys_unique(e),
        0 <= i < e.len(),
    ensures
        entries_map(e).contains_key(e[i].0),
        entries_map(e)[e[i].0] == e[i].1,
    decreases e.len(),
{
    if i < e.len() - 1 {
        let d = e.drop_last();
        assert(keys_unique(d));
        assert(d[i] == e[i]);
        lemma_entries_map_lookup(d, i);
        assert(e.last().0 != e[i].0);
    }
}

proof fn lemma_entries_map_update(e: Seq<EntryView>, i: int, v: PropertyValueView)
    requires
        keys_unique(e),
        0 <= i < e.len(),
    ensures
        entries_map(e.update(i, (e[i].0, v))) == entries_map(e).insert(e[i].0, v),
        keys_unique(e.update(i, (e[i].0, v))),
    decreases e.len(),
{
    let k = e[i].0;
    let u = e.update(i, (k, v));
    assert(u.drop_last() =~= if i == e.len() - 1 {
        e.drop_last()
    } else {
        e.drop_last().update(i, (k, v))
    });
    if i < e.len() - 1 {
        let d = e.drop_last();
        assert(keys_unique(d));
        assert(d[i] == e[i]);
        lemma_entries_map_update(d, i, v);
        assert(e.last().0 != k);
    }
    assert(entries_map(u) =~= entries_map(e).insert(k, v));
    assert forall|a: int, b: int| 0 <= a < b < u.len() implies #[trigger] u[a].0
        != #[trigger] u[b].0 by {
        assert(u[a].0 == e[a].0);
        assert(u[b].0 == e[b].0);
    }
}

/// Enters `key` with `value` into a list of entries with unique names: replaces
/// the value of an entry of that name, or appends a new entry.
fn insert_entry(entries: &mut Vec<(String, PropertyValue)>, key: String, value: PropertyValue)
    requires
        keys_unique(entries_view(old(entries)@)),
    ensures
        keys_unique(entries_view(final(entries)@)),
        entries_map(entries_view(final(entries)@)) == entries_map(entries_view(old(entries)@)).insert(
            key@,
            value@,
        ),
{
    let ghost e0 = entries_view(entries@);
    let mut i: usize = 0;
    while i < entries.len()
        invariant
            i <= entries@.len(),
            entries_view(entries@) == e0,
            e0 == entries_view(old(entries)@),
            keys_unique(e0),
            forall|j: int| 0 <= j < i ==> (#[trigger] e0[j]).0 != key@,
        decreases entries@.len() - i,
    {
        if entries[i].0 == key {
            proof {
                assert(e0[i as int].0 == key@);
                lemma_entries_map_update(e0, i as int, value@);
            }
            let ghost k = key@;
            let ghost v = value@;
            entries.set(i, (key, value));
            assert(entries_view(entries@) =~= e0.update(i as int, (k, v)));
            return;
        }
        assert(e0[i as int].0 == entries@[i as int].0@);
        i = i + 1;
    }
    let ghost k = key@;
    let ghost v = value@;
    entries.push((key, value));
    assert(entries_view(entries@) =~= e0.push((k, v)));
    assert(entries_view(entries@).drop_last() =~= e0);
    let ghost e1 = entries_view(entries@);
    assert forall|a: int, b: int| 0 <= a < b < e1.len() implies #[trigger] e1[a].0
        != #[trigger] e1[b].0 by {
        if b == e0.len() {
            assert(e0[a].0 != k);
        } else {
            assert(e0[a] == e1[a]);
            assert(e0[b] == e1[b]);
        }
    }
}

/// The properties of a font: a map from names to values.
#[derive(Debug, PartialEq)]
pub struct Properties {
    entries: Vec<(String, PropertyValue)>,
}

impl View for Properties {
    type V = Map<Seq<char>, PropertyValueView>;

    closed spec fn view(&self) -> Map<Seq<char>, PropertyValueView> {
        entries_map(entries_view(self.entries@))
    }
}

impl Properties {
    #[verifier::type_invariant]
    spec fn wf(&self) -> bool {
        keys_unique(entries_view(self.entries@))
    }

    /// A table without properties.
    pub fn new() -> (r: Properties)
        ensures
            r@ == Map::<Seq<char>, PropertyValueView>::empty(),
    {
        let r = Properties { entries: Vec::new() };
        assert(entries_view(r.entries@) =~= Seq::empty());
        r
    }

    /// The number of properties.
    pub fn len(&self) -> (r: usize)
        ensures
            r == self@.len(),
    {
        proof {
            use_type_invariant(self);
            lemma_entries_map_len(entries_view(self.entries@));
        }
        self.entries.len()
    }

    /// Looks up a property by its name as written in the font.
    pub fn get(&self, name: &str) -> (r: Option<&PropertyValue>)
        ensures
            match r {
                Some(v) => self@.contains_key(name@) && v@ == self@[name@],
                None => !self@.contains_key(name@),
            },
    {
        proof {
            use_type_invariant(self);
        }
        let key = String::from_str(name);
        let ghost e = entries_view(self.entries@);
        let mut i: usize = 0;
        while i < self.entries.len()
            invariant
                i <= self.entries@.len(),
                e == entries_view(self.entries@),
                keys_unique(e),
                key@ == name@,
                forall|j: int| 0 <= j < i ==> (#[trigger] e[j]).0 != key@,
            decreases self.entries@.len() - i,
        {
            if self.entries[i].0 == key {
                proof {
                    lemma_entries_map_lookup(e, i as int);
                }
                return Some(&self.entries[i].1);
            }
            assert(e[i as int].0 == self.entries@[i as int].0@);
            i = i + 1;
        }
        proof {
            lemma_entries_map_keys(e, name@);
        }
        None
    }

    /// Looks up a well-known property and checks the kind of its value.
    pub fn try_get(&self, id: PropertyId) -> (r: Result<&PropertyValue, PropertyError>)
        ensures
            r == Err::<&PropertyValue, _>(PropertyError::Missing) <==> !self@.contains_key(id.key()),
            r == Err::<&PropertyValue, _>(PropertyError::TypeMismatch) <==> self@.contains_key(
                id.key(),
            ) && self@[id.key()].kind() != id.kind(),
            r matches Ok(v) ==> self@.contains_key(id.key()) && v@ == self@[id.key()]
                && v@.kind() == id.kind(),
    {
        let key = id.key_string();
        match self.get(key.as_str()) {
            None => Err(PropertyError::Missing),
            Some(v) => {
                let matches_kind = match v {
                    PropertyValue::Int(_) => id.value_kind() == PropertyKind::Int,
                    PropertyValue::Text(_) => id.value_kind() == PropertyKind::Text,
                };
                if matches_kind {
                    Ok(v)
                } else {
                    Err(PropertyError::TypeMismatch)
                }
            },
        }
    }
}

proof fn lemma_entries_map_len(e: Seq<EntryView>)
    requires
        keys_unique(e),
    ensures
        entries_map(e).len() == e.len(),
        entries_map(e).dom().finite(),
    decreases e.len(),
{
    if e.len() > 0 {
        let d = e.drop_last();
        assert(keys_unique(d));
        lemma_entries_map_len(d);
        lemma_entries_map_keys(d, e.last().0);
        if entries_map(d).contains_key(e.last().0) {
            let i = choose|i: int| 0 <= i < d.len() && d[i].0 == e.last().0;
            assert(e[i].0 == e[e.len() - 1].0);
        }
    }
}

/// One property line at `p`: a name, spaces, then a value, either a text in
/// double quotes (taken as it stands, without escapes) or an integer.
pub open spec fn property_at(s: Seq<u8>, p: int) -> Option<(EntryView, int)> {
    let k = span(s, p, ByteClass::Word);
    let v = span(s, k, ByteClass::Space);
    let c = span(s, v + 1, ByteClass::QuotedContent);
    if p < k && k < s.len() && is_space(s[k]) {
        if v < s.len() && s[v] == QUOTE {
            if c < s.len() && s[c] == QUOTE {
                Some(
                    (
                        (text_between(s, p, k), PropertyValueView::Text(text_between(s, v + 1, c))),
                        statement_end(s, c + 1),
                    ),
                )
            } else {
                None
            }
        } else {
            match i64_at(s, v) {
                None => None,
                Some((n, e)) => Some(
                    ((text_between(s, p, k), PropertyValueView::Int(n)), statement_end(s, e)),
                ),
            }
        }
    } else {
        None
    }
}

/// The property lines from `p` up to `ENDPROPERTIES`, entered into `m`, with
/// whitespace and comment lines between them; and where `ENDPROPERTIES` ends.
pub open spec fn entries_from(s: Seq<u8>, p: int, m: Map<Seq<char>, PropertyValueView>) -> Option<
    (Map<Seq<char>, PropertyValueView>, int),
>
    decreases s.len() - p,
{
    let a = skip_comments(s, p);
    if has_keyword(s, a, Keyword::EndProperties) {
        Some((m, statement_end(s, a + Keyword::EndProperties.text().len())))
    } else {
        match property_at(s, a) {
            None => None,
            Some(((k, v), q)) => if p < q <= s.len() {
                entries_from(s, q, m.insert(k, v))
            } else {
                None
            },
        }
    }
}

/// The section at `p`: `STARTPROPERTIES <count>`, the properties, `ENDPROPERTIES`.
/// The count is not checked against the properties.
pub open spec fn properties_at(s: Seq<u8>, p: int) -> Option<(Map<Seq<char>, PropertyValueView>, int)> {
    match uint_statement(s, p, Keyword::StartProperties) {
        None => None,
        Some((_, q)) => entries_from(s, q, Map::empty()),
    }
}

/// Reads one property line at `pos`.
fn parse_property(input: &[u8], pos: usize) -> (r: Option<(String, PropertyValue, usize)>)
    requires
        pos <= input@.len(),
    ensures
        match property_at(input@, pos as int) {
            None => r is None,
            Some(((k, v), e)) => r matches Some((key, value, q)) && key@ == k && value@ == v && q
                as int == e,
        },
        r matches Some((_, _, q)) ==> pos < q <= input@.len(),
{
    proof {
        assert(input@.len() == input.len());
        lemma_span(input@, pos as int, ByteClass::Word);
    }
    let k = scan(input, pos, ByteClass::Word);
    if !(pos < k && k < input.len() && (input[k] == SPACE || input[k] == TAB)) {
        return None;
    }
    proof {
        lemma_span(input@, k as int, ByteClass::Space);
    }
    let v = scan(input, k, ByteClass::Space);
    if v < input.len() && input[v] == QUOTE {
        proof {
            lemma_span(input@, v + 1, ByteClass::QuotedContent);
        }
        let c = scan(input, v + 1, ByteClass::QuotedContent);
        if c < input.len() && input[c] == QUOTE {
            let key = text_between_at(input, pos, k);
            let text = text_between_at(input, v + 1, c);
            Some((key, PropertyValue::Text(text), statement_end_at(input, c + 1)))
        } else {
            None
        }
    } else {
        match parse_i64(input, v) {
            None => None,
            Some((n, e)) => {
                let key = text_between_at(input, pos, k);
                Some((key, PropertyValue::Int(n), statement_end_at(input, e)))
            },
        }
    }
}

impl Properties {
    /// Reads the properties section at `pos`.
    pub fn parse(input: &[u8], pos: usize) -> (r: Option<(Properties, usize)>)
        requires
            pos <= input@.len(),
        ensures
            match properties_at(input@, pos as int) {
                None => r is None,
                Some((m, e)) => r matches Some((props, q)) && props@ == m && q as int == e,
            },
            r matches Some((_, q)) ==> pos < q <= input@.len(),
    {
        proof {
            assert(input@.len() == input.len());
        }
        let mut p = match parse_uint_statement(input, pos, Keyword::StartProperties) {
            None => return None,
            Some((_, q)) => q,
        };
        let mut entries: Vec<(String, PropertyValue)> = Vec::new();
        assert(entries_view(entries@) =~= Seq::empty());
        assert(entries_map(entries_view(entries@)) =~= Map::empty());
        loop
            invariant
                pos < p <= input@.len(),
                input@.len() == input.len(),
                keys_unique(entries_view(entries@)),
                properties_at(input@, pos as int) == entries_from(
                    input@,
                    p as int,
                    entries_map(entries_view(entries@)),
                ),
            decreases input@.len() - p,
        {
            let (_, a) = blank_and_comment_lines(input, p);
            if keyword_at(input, a, Keyword::EndProperties) {
                let end = statement_end_at(input, a + Keyword::EndProperties.bytes().len());
                proof {
                    reveal_strlit("ENDPROPERTIES");
                }
                let props = Properties { entries };
                return Some((props, end));
            }
            match parse_property(input, a) {
                None => return None,
                Some((key, value, q)) => {
                    insert_entry(&mut entries, key, value);
                    p = q;
                },
            }
        }
    }
}

} // verus!
