//! The FNT decoder: from the event stream of a BMFont XML document
//! to a nominal font size and an ordered glyph map.
//!
//! Decoding folds over the events. A `char` element contributes one
//! glyph record whose absent attributes default to zero; an `info`
//! element contributes the nominal size; unknown elements and
//! unknown attributes are ignored. An ill-formed document ends
//! decoding with whatever has been accumulated, while an attribute
//! whose value fails integer parsing is an error.

use crate::events::{event_of, events_of_raw, FntEvent, RawAttr, RawEventData};
use crate::glyph::{spec_insert, zero_character, Character, CharacterOffset, CharacterPosition,
    CharacterSize, GlyphMap};
use crate::numbers::{parse_i32, parse_i32_spec, parse_u32, parse_u32_spec};
use crate::xml;
use vstd::prelude::*;

verus! {

/// Why a conversion failed.
#[derive(Clone, Copy, Debug, PartialEq, Eq, Structural)]
pub enum ConversionError {
    /// A `char` or `info` element carries a syntactically malformed attribute.
    AttributeSyntax,
    /// A recognized attribute's value is not a decimal integer that fits.
    InvalidNumber,
}

/// The attribute keys the decoder recognizes.
#[derive(Clone, Copy, Debug, PartialEq, Eq, Structural)]
pub enum AttrKey {
    Id,
    X,
    Y,
    Width,
    Height,
    XOffset,
    YOffset,
    XAdvance,
    Size,
    Other,
}

/// Which recognized key, if any, an attribute name is.
pub open spec fn classify_key(k: Seq<char>) -> AttrKey {
    if k == "id"@ {
        AttrKey::Id
    } else if k == "x"@ {
        AttrKey::X
    } else if k == "y"@ {
        AttrKey::Y
    } else if k == "width"@ {
        AttrKey::Width
    } else if k == "height"@ {
        AttrKey::Height
    } else if k == "xoffset"@ {
        AttrKey::XOffset
    } else if k == "yoffset"@ {
        AttrKey::YOffset
    } else if k == "xadvance"@ {
        AttrKey::XAdvance
    } else if k == "size"@ {
        AttrKey::Size
    } else {
        AttrKey::Other
    }
}

/// Which recognized key, if any, an attribute name is.
pub fn classify(k: &String) -> (r: AttrKey)
    ensures
        r == classify_key(k@),
{
    if *k == "id".to_owned() {
        AttrKey::Id
    } else if *k == "x".to_owned() {
        AttrKey::X
    } else if *k == "y".to_owned() {
        AttrKey::Y
    } else if *k == "width".to_owned() {
        AttrKey::Width
    } else if *k == "height".to_owned() {
        AttrKey::Height
    } else if *k == "xoffset".to_owned() {
        AttrKey::XOffset
    } else if *k == "yoffset".to_owned() {
        AttrKey::YOffset
    } else if *k == "xadvance".to_owned() {
        AttrKey::XAdvance
    } else if *k == "size".to_owned() {
        AttrKey::Size
    } else {
        AttrKey::Other
    }
}

/// The glyph with its atlas x coordinate replaced.
pub open spec fn with_x(ch: Character, v: i32) -> Character {
    Character {
        size: ch.size,
        position: CharacterPosition { x: v, y: ch.position.y },
        offset: ch.offset,
        advance: ch.advance,
    }
}

/// The glyph with its atlas y coordinate replaced.
pub open spec fn with_y(ch: Character, v: i32) -> Character {
    Character {
        size: ch.size,
        position: CharacterPosition { x: ch.position.x, y: v },
        offset: ch.offset,
        advance: ch.advance,
    }
}

/// The glyph with its atlas width replaced.
pub open spec fn with_width(ch: Character, v: i32) -> Character {
    Character {
        size: CharacterSize { width: v, height: ch.size.height },
        position: ch.position,
        offset: ch.offset,
        advance: ch.advance,
    }
}

/// The glyph with its atlas height replaced.
pub open spec fn with_height(ch: Character, v: i32) -> Character {
    Character {
        size: CharacterSize { width: ch.size.width, height: v },
        position: ch.position,
        offset: ch.offset,
        advance: ch.advance,
    }
}

/// The glyph with its draw offset x replaced.
pub open spec fn with_xoffset(ch: Character, v: i32) -> Character {
    Character {
        size: ch.size,
        position: ch.position,
        offset: CharacterOffset { x: v, y: ch.offset.y },
        advance: ch.advance,
    }
}

/// The glyph with its draw offset y replaced.
pub open spec fn with_yoffset(ch: Character, v: i32) -> Character {
    Character {
        size: ch.size,
        position: ch.position,
        offset: CharacterOffset { x: ch.offset.x, y: v },
        advance: ch.advance,
    }
}

/// The glyph with its advance replaced.
pub open spec fn with_advance(ch: Character, v: i32) -> Character {
    Character { size: ch.size, position: ch.position, offset: ch.offset, advance: v }
}

/// Folds the attributes of a `char` element over an accumulated
/// codepoint and glyph. A recognized attribute replaces its field,
/// so a repeated attribute's last occurrence wins; an unrecognized
/// one changes nothing; a recognized one whose value does not parse
/// fails the fold.
pub open spec fn char_fold(attrs: Seq<RawAttr>, id: u32, ch: Character) -> Option<(u32, Character)>
    decreases attrs.len(),
{
    if attrs.len() == 0 {
        Some((id, ch))
    } else {
        let a = attrs[0];
        let rest = attrs.drop_first();
        match classify_key(a.key@) {
            AttrKey::Id => match parse_u32_spec(a.value@) {
                Some(v) => char_fold(rest, v, ch),
                None => None,
            },
            AttrKey::X => match parse_i32_spec(a.value@) {
                Some(v) => char_fold(rest, id, with_x(ch, v)),
                None => None,
            },
            AttrKey::Y => match parse_i32_spec(a.value@) {
                Some(v) => char_fold(rest, id, with_y(ch, v)),
                None => None,
            },
            AttrKey::Width => match parse_i32_spec(a.value@) {
                Some(v) => char_fold(rest, id, with_width(ch, v)),
                None => None,
            },
            AttrKey::Height => match parse_i32_spec(a.value@) {
                Some(v) => char_fold(rest, id, with_height(ch, v)),
                None => None,
            },
            AttrKey::XOffset => match parse_i32_spec(a.value@) {
                Some(v) => char_fold(rest, id, with_xoffset(ch, v)),
                None => None,
            },
            AttrKey::YOffset => match parse_i32_spec(a.value@) {
                Some(v) => char_fold(rest, id, with_yoffset(ch, v)),
                None => None,
            },
            AttrKey::XAdvance => match parse_i32_spec(a.value@) {
                Some(v) => char_fold(rest, id, with_advance(ch, v)),
                None => None,
            },
            AttrKey::Size => char_fold(rest, id, ch),
            AttrKey::Other => char_fold(rest, id, ch),
        }
    }
}

/// The codepoint and glyph a `char` element denotes: the fold of its
/// attributes over codepoint zero and the all-zero glyph.
pub open spec fn char_of_attrs(attrs: Seq<RawAttr>) -> Option<(u32, Character)> {
    char_fold(attrs, 0, zero_character())
}

/// Folds the attributes of an `info` element over an accumulated
/// nominal size: only `size` is read, and its last occurrence wins.
pub open spec fn size_fold(attrs: Seq<RawAttr>, size: i32) -> Option<i32>
    decreases attrs.len(),
{
    if attrs.len() == 0 {
        Some(size)
    } else {
        let a = attrs[0];
        let rest = attrs.drop_first();
        if classify_key(a.key@) is Size {
            match parse_i32_spec(a.value@) {
                Some(v) => size_fold(rest, v),
                None => None,
            }
        } else {
            size_fold(rest, size)
        }
    }
}

/// The fold leaves the glyph untouched where no attribute is a
/// recognized metric key.
proof fn lemma_char_fold_keeps_glyph(attrs: Seq<RawAttr>, id: u32, ch: Character)
    requires
        forall|i: int|
            0 <= i < attrs.len() ==> {
                let k = classify_key(#[trigger] attrs[i].key@);
                k is Id || k is Size || k is Other
            },
    ensures
        char_fold(attrs, id, ch) matches Some(g) ==> g.1 == ch,
    decreases attrs.len(),
{
    if attrs.len() > 0 {
        let rest = attrs.drop_first();
        assert(forall|i: int| 0 <= i < rest.len() ==> rest[i] == attrs[i + 1]);
        match classify_key(attrs[0].key@) {
            AttrKey::Id => {
                match parse_u32_spec(attrs[0].value@) {
                    Some(v) => {
                        lemma_char_fold_keeps_glyph(rest, v, ch);
                    },
                    None => {},
                }
            },
            _ => {
                lemma_char_fold_keeps_glyph(rest, id, ch);
            },
        }
    }
}

/// Law: a `char` element carrying no recognized metric attribute —
/// an `id` and whatever unknown attributes — decodes, when it
/// decodes at all, to a glyph whose five numeric fields are all
/// zero.
pub proof fn lemma_char_defaults(attrs: Seq<RawAttr>)
    requires
        forall|i: int|
            0 <= i < attrs.len() ==> {
                let k = classify_key(#[trigger] attrs[i].key@);
                k is Id || k is Size || k is Other
            },
    ensures
        char_of_attrs(attrs) matches Some(g) ==> g.1 == zero_character(),
{
    lemma_char_fold_keeps_glyph(attrs, 0, zero_character());
}

/// The fold's codepoint and glyph do not depend on an attribute
/// with an unrecognized key, wherever among the attributes it
/// stands.
proof fn lemma_char_fold_insert_other(
    attrs: Seq<RawAttr>,
    k: int,
    a: RawAttr,
    id: u32,
    ch: Character,
)
    requires
        0 <= k <= attrs.len(),
        classify_key(a.key@) is Other,
    ensures
        char_fold(attrs.insert(k, a), id, ch) == char_fold(attrs, id, ch),
    decreases attrs.len(),
{
    let w = attrs.insert(k, a);
    if k == 0 {
        assert(w[0] == a);
        assert(w.drop_first() =~= attrs);
    } else {
        assert(w[0] == attrs[0]);
        let rest = attrs.drop_first();
        assert(w.drop_first() =~= rest.insert(k - 1, a));
        match classify_key(attrs[0].key@) {
            AttrKey::Id => {
                match parse_u32_spec(attrs[0].value@) {
                    Some(v) => {
                        lemma_char_fold_insert_other(rest, k - 1, a, v, ch);
                    },
                    None => {},
                }
            },
            AttrKey::X => {
                match parse_i32_spec(attrs[0].value@) {
                    Some(v) => {
                        lemma_char_fold_insert_other(rest, k - 1, a, id, with_x(ch, v));
                    },
                    None => {},
                }
            },
            AttrKey::Y => {
                match parse_i32_spec(attrs[0].value@) {
                    Some(v) => {
                        lemma_char_fold_insert_other(rest, k - 1, a, id, with_y(ch, v));
                    },
                    None => {},
                }
            },
            AttrKey::Width => {
                match parse_i32_spec(attrs[0].value@) {
                    Some(v) => {
                        lemma_char_fold_insert_other(rest, k - 1, a, id, with_width(ch, v));
                    },
                    None => {},
                }
            },
            AttrKey::Height => {
                match parse_i32_spec(attrs[0].value@) {
                    Some(v) => {
                        lemma_char_fold_insert_other(rest, k - 1, a, id, with_height(ch, v));
                    },
                    None => {},
                }
            },
            AttrKey::XOffset => {
                match parse_i32_spec(attrs[0].value@) {
                    Some(v) => {
                        lemma_char_fold_insert_other(rest, k - 1, a, id, with_xoffset(ch, v));
                    },
                    None => {},
                }
            },
            AttrKey::YOffset => {
                match parse_i32_spec(attrs[0].value@) {
                    Some(v) => {
                        lemma_char_fold_insert_other(rest, k - 1, a, id, with_yoffset(ch, v));
                    },
                    None => {},
                }
            },
            AttrKey::XAdvance => {
                match parse_i32_spec(attrs[0].value@) {
                    Some(v) => {
                        lemma_char_fold_insert_other(rest, k - 1, a, id, with_advance(ch, v));
                    },
                    None => {},
                }
            },
            AttrKey::Size => {
                lemma_char_fold_insert_other(rest, k - 1, a, id, ch);
            },
            AttrKey::Other => {
                lemma_char_fold_insert_other(rest, k - 1, a, id, ch);
            },
        }
    }
}

/// Law: adding an attribute with an unrecognized key to a `char`
/// element, at any position, does not change what the element
/// decodes to.
pub proof fn lemma_unknown_attr_ignored(attrs: Seq<RawAttr>, k: int, a: RawAttr)
    requires
        0 <= k <= attrs.len(),
        classify_key(a.key@) is Other,
    ensures
        char_of_attrs(attrs.insert(k, a)) == char_of_attrs(attrs),
{
    lemma_char_fold_insert_other(attrs, k, a, 0, zero_character());
}

/// Decoding from a stream without any `info` element keeps the
/// accumulated size.
proof fn lemma_decode_from_no_info(events: Seq<FntEvent>, size: i32, glyphs: Seq<(u32, Character)>)
    requires
        forall|i: int| 0 <= i < events.len() ==> !(#[trigger] events[i] is InfoNode),
    ensures
        decode_from(events, size, glyphs) matches Ok(v) ==> v.0 == size,
    decreases events.len(),
{
    if events.len() > 0 {
        let rest = events.drop_first();
        assert(forall|i: int| 0 <= i < rest.len() ==> rest[i] == events[i + 1]);
        match events[0] {
            FntEvent::Skip => {
                lemma_decode_from_no_info(rest, size, glyphs);
            },
            FntEvent::CharNode { attrs } => {
                match char_of_attrs(attrs@) {
                    Some((id, ch)) => {
                        lemma_decode_from_no_info(rest, size, spec_insert(glyphs, id, ch));
                    },
                    None => {},
                }
            },
            _ => {},
        }
    }
}

/// Law: a document without an `info` element decodes to nominal
/// size zero.
pub proof fn lemma_absent_info_size_zero(events: Seq<FntEvent>)
    requires
        forall|i: int| 0 <= i < events.len() ==> !(#[trigger] events[i] is InfoNode),
    ensures
        decode_spec(events) matches Ok(v) ==> v.0 == 0,
{
    lemma_decode_from_no_info(events, 0, Seq::empty());
}

/// Decoding does not depend on a skipped event, wherever in the
/// stream it stands.
proof fn lemma_decode_from_insert_skip(
    events: Seq<FntEvent>,
    k: int,
    size: i32,
    glyphs: Seq<(u32, Character)>,
)
    requires
        0 <= k <= events.len(),
    ensures
        decode_from(events.insert(k, FntEvent::Skip), size, glyphs) == decode_from(
            events,
            size,
            glyphs,
        ),
    decreases events.len(),
{
    let w = events.insert(k, FntEvent::Skip);
    if k == 0 {
        assert(w[0] is Skip);
        assert(w.drop_first() =~= events);
    } else {
        assert(w[0] == events[0]);
        let rest = events.drop_first();
        assert(w.drop_first() =~= rest.insert(k - 1, FntEvent::Skip));
        match events[0] {
            FntEvent::Skip => {
                lemma_decode_from_insert_skip(rest, k - 1, size, glyphs);
            },
            FntEvent::CharNode { attrs } => {
                match char_of_attrs(attrs@) {
                    Some((id, ch)) => {
                        lemma_decode_from_insert_skip(rest, k - 1, size, spec_insert(glyphs, id, ch));
                    },
                    None => {},
                }
            },
            FntEvent::InfoNode { attrs } => {
                match size_fold(attrs@, size) {
                    Some(s2) => {
                        lemma_decode_from_insert_skip(rest, k - 1, s2, glyphs);
                    },
                    None => {},
                }
            },
            _ => {},
        }
    }
}

/// Law: adding an event the decoder skips — an unknown element,
/// text, a comment — at any position of the stream does not change
/// what the stream decodes to.
pub proof fn lemma_unknown_element_ignored(events: Seq<FntEvent>, k: int)
    requires
        0 <= k <= events.len(),
    ensures
        decode_spec(events.insert(k, FntEvent::Skip)) == decode_spec(events),
{
    lemma_decode_from_insert_skip(events, k, 0, Seq::empty());
}

/// Decodes the codepoint and glyph of a `char` element's attributes.
pub fn decode_char_attrs(attrs: &Vec<RawAttr>) -> (r: Option<(u32, Character)>)
    ensures
        r == char_of_attrs(attrs@),
{
    let mut id: u32 = 0;
    let mut ch: Character = crate::glyph::new_zero_character();
    let mut i: usize = 0;
    proof {
        assert(attrs@.skip(0) =~= attrs@);
    }
    while i < attrs.len()
        invariant
            0 <= i <= attrs@.len(),
            char_of_attrs(attrs@) == char_fold(attrs@.skip(i as int), id, ch),
        decreases attrs@.len() - i as int,
    {
        proof {
            assert(attrs@.skip(i as int).drop_first() =~= attrs@.skip(i as int + 1));
            assert(attrs@.skip(i as int)[0] == attrs@[i as int]);
        }
        let a = &attrs[i];
        match classify(&a.key) {
            AttrKey::Id => match parse_u32(a.value.as_str()) {
                Some(v) => {
                    id = v;
                },
                None => {
                    return None;
                },
            },
            AttrKey::X => match parse_i32(a.value.as_str()) {
                Some(v) => {
                    ch = Character {
                        size: ch.size,
                        position: CharacterPosition { x: v, y: ch.position.y },
                        offset: ch.offset,
                        advance: ch.advance,
                    };
                },
                None => {
                    return None;
                },
            },
            AttrKey::Y => match parse_i32(a.value.as_str()) {
                Some(v) => {
                    ch = Character {
                        size: ch.size,
                        position: CharacterPosition { x: ch.position.x, y: v },
                        offset: ch.offset,
                        advance: ch.advance,
                    };
                },
                None => {
                    return None;
                },
            },
            AttrKey::Width => match parse_i32(a.value.as_str()) {
                Some(v) => {
                    ch = Character {
                        size: CharacterSize { width: v, height: ch.size.height },
                        position: ch.position,
                        offset: ch.offset,
                        advance: ch.advance,
                    };
                },
                None => {
                    return None;
                },
            },
            AttrKey::Height => match parse_i32(a.value.as_str()) {
                Some(v) => {
                    ch = Character {
                        size: CharacterSize { width: ch.size.width, height: v },
                        position: ch.position,
                        offset: ch.offset,
                        advance: ch.advance,
                    };
                },
                None => {
                    return None;
                },
            },
            AttrKey::XOffset => match parse_i32(a.value.as_str()) {
                Some(v) => {
                    ch = Character {
                        size: ch.size,
                        position: ch.position,
                        offset: CharacterOffset { x: v, y: ch.offset.y },
                        advance: ch.advance,
                    };
                },
                None => {
                    return None;
                },
            },
            AttrKey::YOffset => match parse_i32(a.value.as_str()) {
                Some(v) => {
                    ch = Character {
                        size: ch.size,
                        position: ch.position,
                        offset: CharacterOffset { x: ch.offset.x, y: v },
                        advance: ch.advance,
                    };
                },
                None => {
                    return None;
                },
            },
            AttrKey::XAdvance => match parse_i32(a.value.as_str()) {
                Some(v) => {
                    ch = Character {
                        size: ch.size,
                        position: ch.position,
                        offset: ch.offset,
                        advance: v,
                    };
                },
                None => {
                    return None;
                },
            },
            AttrKey::Size => {},
            AttrKey::Other => {},
        }
        i = i + 1;
    }
    proof {
        assert(attrs@.skip(i as int) =~= Seq::<RawAttr>::empty());
    }
    Some((id, ch))
}

/// Decodes the nominal size an `info` element's attributes leave.
pub fn decode_info_attrs(size: i32, attrs: &Vec<RawAttr>) -> (r: Option<i32>)
    ensures
        r == size_fold(attrs@, size),
{
    let mut sz: i32 = size;
    let mut i: usize = 0;
    proof {
        assert(attrs@.skip(0) =~= attrs@);
    }
    while i < attrs.len()
        invariant
            0 <= i <= attrs@.len(),
            size_fold(attrs@, size) == size_fold(attrs@.skip(i as int), sz),
        decreases attrs@.len() - i as int,
    {
        proof {
            assert(attrs@.skip(i as int).drop_first() =~= attrs@.skip(i as int + 1));
            assert(attrs@.skip(i as int)[0] == attrs@[i as int]);
        }
        let a = &attrs[i];
        match classify(&a.key) {
            AttrKey::Size => match parse_i32(a.value.as_str()) {
                Some(v) => {
                    sz = v;
                },
                None => {
                    return None;
                },
            },
            _ => {},
        }
        i = i + 1;
    }
    proof {
        assert(attrs@.skip(i as int) =~= Seq::<RawAttr>::empty());
    }
    Some(sz)
}

/// Decodes an event stream from an accumulated size and glyph
/// sequence on. Decoding stops, keeping what it has, at end of input
/// and where the document is ill-formed; it fails on a malformed
/// attribute or an unparseable recognized value.
pub open spec fn decode_from(
    events: Seq<FntEvent>,
    size: i32,
    glyphs: Seq<(u32, Character)>,
) -> Result<(i32, Seq<(u32, Character)>), ConversionError>
    decreases events.len(),
{
    if events.len() == 0 {
        Ok((size, glyphs))
    } else {
        match events[0] {
            FntEvent::Eof => Ok((size, glyphs)),
            FntEvent::Broken { .. } => Ok((size, glyphs)),
            FntEvent::BadAttrs => Err(ConversionError::AttributeSyntax),
            FntEvent::Skip => decode_from(events.drop_first(), size, glyphs),
            FntEvent::CharNode { attrs } => match char_of_attrs(attrs@) {
                Some((id, ch)) => decode_from(
                    events.drop_first(),
                    size,
                    spec_insert(glyphs, id, ch),
                ),
                None => Err(ConversionError::InvalidNumber),
            },
            FntEvent::InfoNode { attrs } => match size_fold(attrs@, size) {
                Some(s2) => decode_from(events.drop_first(), s2, glyphs),
                None => Err(ConversionError::InvalidNumber),
            },
        }
    }
}

/// What an event stream decodes to, from the empty state: size zero
/// and no glyphs.
pub open spec fn decode_spec(events: Seq<FntEvent>) -> Result<
    (i32, Seq<(u32, Character)>),
    ConversionError,
> {
    decode_from(events, 0, Seq::empty())
}

/// Whether every `size` attribute of an `info` element parses; the
/// one way an `info` element can fail, whatever size is
/// accumulated.
pub open spec fn info_ok(attrs: Seq<RawAttr>) -> bool
    decreases attrs.len(),
{
    if attrs.len() == 0 {
        true
    } else {
        if classify_key(attrs[0].key@) is Size {
            parse_i32_spec(attrs[0].value@) is Some && info_ok(attrs.drop_first())
        } else {
            info_ok(attrs.drop_first())
        }
    }
}

/// The size fold succeeds exactly when every `size` value parses,
/// whatever size it starts from.
proof fn lemma_size_fold_ok(attrs: Seq<RawAttr>, size: i32)
    ensures
        size_fold(attrs, size) is Some <==> info_ok(attrs),
    decreases attrs.len(),
{
    if attrs.len() > 0 {
        if classify_key(attrs[0].key@) is Size {
            match parse_i32_spec(attrs[0].value@) {
                Some(v) => {
                    lemma_size_fold_ok(attrs.drop_first(), v);
                },
                None => {},
            }
        } else {
            lemma_size_fold_ok(attrs.drop_first(), size);
        }
    }
}

/// The diagnostic of the event at which decoding stops early: the
/// tokenizer's ill-formedness text, where decoding reaches such an
/// event before end of input and before any failure of its own.
pub open spec fn truncation_diag(events: Seq<FntEvent>) -> Option<Seq<char>>
    decreases events.len(),
{
    if events.len() == 0 {
        None
    } else {
        match events[0] {
            FntEvent::Eof => None,
            FntEvent::Broken { detail } => Some(detail@),
            FntEvent::BadAttrs => None,
            FntEvent::Skip => truncation_diag(events.drop_first()),
            FntEvent::CharNode { attrs } => if char_of_attrs(attrs@) is Some {
                truncation_diag(events.drop_first())
            } else {
                None
            },
            FntEvent::InfoNode { attrs } => if info_ok(attrs@) {
                truncation_diag(events.drop_first())
            } else {
                None
            },
        }
    }
}

/// Decodes an event stream into the nominal font size and the
/// ordered glyph map, and reports the tokenizer's diagnostic where
/// decoding stopped at an ill-formed rest of the document.
pub fn decode_events_report(events: &Vec<FntEvent>) -> (r: (
    Result<(i32, GlyphMap), ConversionError>,
    Option<String>,
))
    ensures
        match r.0 {
            Ok((size, m)) => m.wf() && decode_spec(events@) == Ok::<
                (i32, Seq<(u32, Character)>),
                ConversionError,
            >((size, m@)),
            Err(e) => decode_spec(events@) == Err::<
                (i32, Seq<(u32, Character)>),
                ConversionError,
            >(e),
        },
        match r.1 {
            Some(d) => truncation_diag(events@) == Some(d@),
            None => truncation_diag(events@) is None,
        },
{
    let mut size: i32 = 0;
    let mut map = GlyphMap::new();
    let mut i: usize = 0;
    proof {
        assert(map@ =~= Seq::<(u32, Character)>::empty());
        assert(events@.skip(0) =~= events@);
    }
    while i < events.len()
        invariant
            0 <= i <= events@.len(),
            map.wf(),
            decode_spec(events@) == decode_from(events@.skip(i as int), size, map@),
            truncation_diag(events@) == truncation_diag(events@.skip(i as int)),
        decreases events@.len() - i as int,
    {
        proof {
            assert(events@.skip(i as int).drop_first() =~= events@.skip(i as int + 1));
            assert(events@.skip(i as int)[0] == events@[i as int]);
        }
        match &events[i] {
            FntEvent::Eof => {
                return (Ok((size, map)), None);
            },
            FntEvent::Broken { detail } => {
                return (Ok((size, map)), Some(detail.clone()));
            },
            FntEvent::BadAttrs => {
                return (Err(ConversionError::AttributeSyntax), None);
            },
            FntEvent::Skip => {},
            FntEvent::CharNode { attrs } => {
                match decode_char_attrs(attrs) {
                    Some((id, ch)) => {
                        map.insert(id, ch);
                    },
                    None => {
                        return (Err(ConversionError::InvalidNumber), None);
                    },
                }
            },
            FntEvent::InfoNode { attrs } => {
                proof {
                    lemma_size_fold_ok(attrs@, size);
                }
                match decode_info_attrs(size, attrs) {
                    Some(s2) => {
                        size = s2;
                    },
                    None => {
                        return (Err(ConversionError::InvalidNumber), None);
                    },
                }
            },
        }
        i = i + 1;
    }
    proof {
        assert(events@.skip(i as int) =~= Seq::<FntEvent>::empty());
    }
    (Ok((size, map)), None)
}

/// Decodes an event stream into the nominal font size and the
/// ordered glyph map.
pub fn decode_events(events: &Vec<FntEvent>) -> (r: Result<(i32, GlyphMap), ConversionError>)
    ensures
        match r {
            Ok((size, m)) => m.wf() && decode_spec(events@) == Ok::<
                (i32, Seq<(u32, Character)>),
                ConversionError,
            >((size, m@)),
            Err(e) => decode_spec(events@) == Err::<
                (i32, Seq<(u32, Character)>),
                ConversionError,
            >(e),
        },
{
    let (r, _) = decode_events_report(events);
    r
}

/// Tokenizes a BMFont XML document into the decoder's event stream:
/// the classification of the raw event stream that the document's
/// text tokenizes to.
pub fn tokenize(content: &str) -> (events: Vec<FntEvent>)
    ensures
        events@ == events_of_raw(xml::raw_events_of(content@)),
{
    let mut raws = xml::raw_events(content);
    let ghost all = raws@;
    let mut events: Vec<FntEvent> = Vec::new();
    proof {
        assert(all.take(0) =~= Seq::<RawEventData>::empty());
        assert(events_of_raw(all.take(0)) =~= Seq::<FntEvent>::empty());
        assert(all.skip(0) =~= all);
    }
    while raws.len() > 0
        invariant
            events@.len() <= all.len(),
            raws@ == all.skip(events@.len() as int),
            events@ == events_of_raw(all.take(events@.len() as int)),
        decreases raws@.len(),
    {
        let ghost k = events@.len() as int;
        proof {
            assert(all.skip(k)[0] == all[k]);
            assert(all.skip(k).drop_first() =~= all.skip(k + 1));
        }
        let r = raws.remove(0);
        proof {
            assert(raws@ =~= all.skip(k + 1));
        }
        let ev: FntEvent = match r {
            RawEventData::Element { name, attrs } => {
                if name == "char".to_owned() {
                    match attrs {
                        Some(v) => FntEvent::CharNode { attrs: v },
                        None => FntEvent::BadAttrs,
                    }
                } else if name == "info".to_owned() {
                    match attrs {
                        Some(v) => FntEvent::InfoNode { attrs: v },
                        None => FntEvent::BadAttrs,
                    }
                } else {
                    FntEvent::Skip
                }
            },
            RawEventData::Skip => FntEvent::Skip,
            RawEventData::Broken { detail } => FntEvent::Broken { detail },
            RawEventData::Eof => FntEvent::Eof,
        };
        proof {
            assert(ev == event_of(all[k]));
            assert(events_of_raw(all.take(k + 1)) =~= events_of_raw(all.take(k)).push(
                event_of(all[k]),
            ));
        }
        events.push(ev);
    }
    proof {
        assert(all.take(events@.len() as int) =~= all);
    }
    events
}

/// Parses a BMFont XML document: the nominal font size and the
/// ordered glyph map, or why the conversion failed. The result is
/// the decoding of the document's own event stream.
pub fn parse_fnt(content: &str) -> (r: Result<(i32, GlyphMap), ConversionError>)
    ensures
        ({
            let d = decode_spec(events_of_raw(xml::raw_events_of(content@)));
            match r {
                Ok((size, m)) => m.wf() && d == Ok::<
                    (i32, Seq<(u32, Character)>),
                    ConversionError,
                >((size, m@)),
                Err(e) => d == Err::<(i32, Seq<(u32, Character)>), ConversionError>(e),
            }
        }),
{
    let events = tokenize(content);
    decode_events(&events)
}

} // verus!
