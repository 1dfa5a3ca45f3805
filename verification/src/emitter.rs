//! The Lua emitter: renders a font size and an ordered glyph map as
//! a Lua source file returning a table.
//!
//! Each glyph becomes one entry keyed by its character. Codepoints 0
//! and 13 render as the empty key, the quote and the backslash are
//! escaped, every other control character and every value that is
//! not a Unicode scalar render as an uppercase hexadecimal escape,
//! and everything else stands literally.

use crate::glyph::{Character, GlyphMap};
use crate::numbers::{dec_str_i32, hex_digits_of, push_dec_i32, push_hex_u32};
use vstd::prelude::*;
use vstd::string::StrSliceExecFns;

verus! {

/// A control character: the Unicode Cc category.
pub open spec fn is_control_cp(id: u32) -> bool {
    id <= 0x1F || (0x7F <= id && id <= 0x9F)
}

/// The hexadecimal escape of a codepoint.
pub open spec fn hex_escape(id: u32) -> Seq<char> {
    seq!['\\', 'u', '{'] + hex_digits_of(id as int) + seq!['}']
}

/// The characters of a glyph's Lua table key. Codepoints 0 and 13
/// give the empty key; a value that is no Unicode scalar and every
/// other control character give a hexadecimal escape; the quote and
/// the backslash are escaped; any other scalar stands literally.
pub open spec fn key_spec(id: u32) -> Seq<char> {
    if id == 0 || id == 13 {
        Seq::empty()
    } else if !vstd::utf8::is_scalar(id) {
        hex_escape(id)
    } else if id == 34 {
        seq!['\\', '"']
    } else if id == 92 {
        seq!['\\', '\\']
    } else if is_control_cp(id) {
        hex_escape(id)
    } else {
        seq![id as char]
    }
}

/// One glyph's line of the output table.
pub open spec fn entry_spec(id: u32, ch: Character) -> Seq<char> {
    "        [\""@ + key_spec(id) + "\"] = { Vector2.new("@ + dec_str_i32(ch.size.width as int)
        + ", "@ + dec_str_i32(ch.size.height as int) + "), Vector2.new("@ + dec_str_i32(
        ch.position.x as int,
    ) + ", "@ + dec_str_i32(ch.position.y as int) + "), Vector2.new("@ + dec_str_i32(
        ch.offset.x as int,
    ) + ", "@ + dec_str_i32(ch.offset.y as int) + "), "@ + dec_str_i32(ch.advance as int)
        + " },\n"@
}

/// The glyph lines, in storage order.
pub open spec fn entries_spec(glyphs: Seq<(u32, Character)>) -> Seq<char>
    decreases glyphs.len(),
{
    if glyphs.len() == 0 {
        Seq::empty()
    } else {
        entries_spec(glyphs.drop_last()) + entry_spec(glyphs.last().0, glyphs.last().1)
    }
}

/// The whole output: the returned table with the nominal size and
/// the glyph entries, newline-terminated.
pub open spec fn output_spec(size: i32, glyphs: Seq<(u32, Character)>) -> Seq<char> {
    "return {\n    Size = "@ + dec_str_i32(size as int) + ",\n    Characters = {\n"@
        + entries_spec(glyphs) + "    }\n}\n"@
}

/// Law: the emitted text is a function of the decoded data alone;
/// equal sizes and equal glyph sequences render byte-identical
/// output, whatever produced them.
pub proof fn lemma_output_deterministic(
    s1: i32,
    g1: Seq<(u32, Character)>,
    s2: i32,
    g2: Seq<(u32, Character)>,
)
    requires
        s1 == s2,
        g1 == g2,
    ensures
        output_spec(s1, g1) == output_spec(s2, g2),
{
}

/// Law: a well-formed glyph map's entries stand in strictly
/// ascending codepoint order, and that is the order the emitter
/// walks them in.
pub proof fn lemma_entries_ascending(m: GlyphMap)
    requires
        m.wf(),
    ensures
        forall|i: int, j: int| 0 <= i < j < m@.len() ==> m@[i].0 < m@[j].0,
{
}

/// Law: conversion is deterministic in a stronger sense — the
/// output text depends only on the nominal size and on which glyph
/// each codepoint maps to. Two well-formed maps holding the same
/// mapping render byte-identical output, whatever order built them.
pub proof fn lemma_output_canonical(size: i32, m1: GlyphMap, m2: GlyphMap)
    requires
        m1.wf(),
        m2.wf(),
        forall|id: u32, ch: Character|
            crate::glyph::maps_to(m1@, id, ch) <==> crate::glyph::maps_to(m2@, id, ch),
    ensures
        output_spec(size, m1@) == output_spec(size, m2@),
{
    crate::glyph::lemma_sorted_entries_canonical(m1@, m2@);
}

/// Law: codepoints 0 and 13 render as the empty table key, not as
/// an escape.
pub proof fn lemma_key_empty_for_nul_and_cr(id: u32)
    requires
        id == 0 || id == 13,
    ensures
        key_spec(id) == Seq::<char>::empty(),
{
}

/// Law: the quote's key is an escaped quote, and the backslash's an
/// escaped backslash.
pub proof fn lemma_key_quote_and_backslash()
    ensures
        key_spec(34) == seq!['\\', '"'],
        key_spec(92) == seq!['\\', '\\'],
{
}

/// Each glyph's line stands whole inside the rendered entry block.
proof fn lemma_entries_contain_line(glyphs: Seq<(u32, Character)>, i: int)
    requires
        0 <= i < glyphs.len(),
    ensures
        ({
            let e = entry_spec(glyphs[i].0, glyphs[i].1);
            let all = entries_spec(glyphs);
            exists|off: int|
                0 <= off && off + e.len() <= all.len() && #[trigger] all.subrange(
                    off,
                    off + e.len(),
                ) == e
        }),
    decreases glyphs.len(),
{
    let e = entry_spec(glyphs[i].0, glyphs[i].1);
    let all = entries_spec(glyphs);
    if i == glyphs.len() - 1 {
        let off = entries_spec(glyphs.drop_last()).len() as int;
        assert(all == entries_spec(glyphs.drop_last()) + e);
        assert(all.subrange(off, off + e.len()) =~= e);
    } else {
        let pre = glyphs.drop_last();
        assert(pre[i] == glyphs[i]);
        lemma_entries_contain_line(pre, i);
        let off = choose|off: int|
            0 <= off && off + e.len() <= entries_spec(pre).len() && #[trigger] entries_spec(
                pre,
            ).subrange(off, off + e.len()) == e;
        assert(all == entries_spec(pre) + entry_spec(glyphs.last().0, glyphs.last().1));
        assert(all.subrange(off, off + e.len()) =~= entries_spec(pre).subrange(
            off,
            off + e.len(),
        ));
    }
}

/// Law: the output holds one line for every glyph of the map — the
/// exact text of `entry_spec` stands contiguously in it. With
/// `key_spec`, a glyph under codepoint 0 or 13 therefore yields a
/// line whose key is the empty string, and the quote and the
/// backslash yield their escaped keys.
pub proof fn lemma_output_contains_glyph_line(size: i32, glyphs: Seq<(u32, Character)>, i: int)
    requires
        0 <= i < glyphs.len(),
    ensures
        ({
            let e = entry_spec(glyphs[i].0, glyphs[i].1);
            let out = output_spec(size, glyphs);
            exists|off: int|
                0 <= off && off + e.len() <= out.len() && #[trigger] out.subrange(
                    off,
                    off + e.len(),
                ) == e
        }),
{
    lemma_entries_contain_line(glyphs, i);
    let e = entry_spec(glyphs[i].0, glyphs[i].1);
    let all = entries_spec(glyphs);
    let off0 = choose|off: int|
        0 <= off && off + e.len() <= all.len() && #[trigger] all.subrange(off, off + e.len())
            == e;
    let head = "return {\n    Size = "@ + dec_str_i32(size as int) + ",\n    Characters = {\n"@;
    let off = head.len() + off0;
    assert(output_spec(size, glyphs).subrange(off, off + e.len()) =~= e);
}

/// Relies on `char::from_u32`: a character for every valid Unicode
/// scalar value, preserving the value, and nothing for surrogates
/// and values beyond the scalar range.
#[verifier::external_body]
fn char_from_u32(v: u32) -> (r: Option<char>)
    ensures
        r == (if vstd::utf8::is_scalar(v) {
            Some(v as char)
        } else {
            None::<char>
        }),
{
    char::from_u32(v)
}

/// Relies on `String`'s `FromIterator` of `char`: collecting the
/// characters gives the string of exactly those characters.
#[verifier::external_body]
fn chars_to_string(v: &Vec<char>) -> (r: String)
    ensures
        r@ == v@,
{
    v.iter().collect()
}

/// Appends every character of a string slice.
fn push_str(out: &mut Vec<char>, s: &str)
    ensures
        final(out)@ == old(out)@ + s@,
{
    let n = s.unicode_len();
    let mut i: usize = 0;
    while i < n
        invariant
            0 <= i <= n,
            n == s@.len(),
            out@ == old(out)@ + s@.take(i as int),
        decreases n - i,
    {
        let c = s.get_char(i);
        out.push(c);
        proof {
            assert(old(out)@ + s@.take(i as int + 1) =~= (old(out)@ + s@.take(i as int)).push(
                s@[i as int],
            ));
        }
        i = i + 1;
    }
    proof {
        assert(s@.take(n as int) =~= s@);
    }
}

/// Appends the Lua table key of a codepoint.
fn push_key(out: &mut Vec<char>, id: u32)
    ensures
        final(out)@ == old(out)@ + key_spec(id),
{
    if id == 0 || id == 13 {
        proof {
            assert(out@ =~= old(out)@ + key_spec(id));
        }
        return ;
    }
    match char_from_u32(id) {
        Some(c) => {
            if id == 34 {
                out.push('\\');
                out.push('"');
                proof {
                    assert(out@ =~= old(out)@ + key_spec(id));
                }
            } else if id == 92 {
                out.push('\\');
                out.push('\\');
                proof {
                    assert(out@ =~= old(out)@ + key_spec(id));
                }
            } else if id <= 0x1F || (0x7F <= id && id <= 0x9F) {
                push_hex_escape(out, id);
                proof {
                    assert(out@ =~= old(out)@ + key_spec(id));
                }
            } else {
                out.push(c);
                proof {
                    assert(out@ =~= old(out)@ + key_spec(id));
                }
            }
        },
        None => {
            push_hex_escape(out, id);
            proof {
                assert(out@ =~= old(out)@ + key_spec(id));
            }
        },
    }
}

/// Appends the hexadecimal escape of a codepoint.
fn push_hex_escape(out: &mut Vec<char>, id: u32)
    ensures
        final(out)@ == old(out)@ + hex_escape(id),
{
    out.push('\\');
    out.push('u');
    out.push('{');
    push_hex_u32(out, id);
    out.push('}');
    proof {
        assert(out@ =~= old(out)@ + hex_escape(id));
    }
}

/// Appends one glyph's line of the output table.
fn push_entry(out: &mut Vec<char>, id: u32, ch: Character)
    ensures
        final(out)@ == old(out)@ + entry_spec(id, ch),
{
    push_str(out, "        [\"");
    push_key(out, id);
    push_str(out, "\"] = { Vector2.new(");
    push_dec_i32(out, ch.size.width);
    push_str(out, ", ");
    push_dec_i32(out, ch.size.height);
    push_str(out, "), Vector2.new(");
    push_dec_i32(out, ch.position.x);
    push_str(out, ", ");
    push_dec_i32(out, ch.position.y);
    push_str(out, "), Vector2.new(");
    push_dec_i32(out, ch.offset.x);
    push_str(out, ", ");
    push_dec_i32(out, ch.offset.y);
    push_str(out, "), ");
    push_dec_i32(out, ch.advance);
    push_str(out, " },\n");
    proof {
        assert(out@ =~= old(out)@ + entry_spec(id, ch));
    }
}

/// Renders the font size and the glyph map as the Lua source text,
/// entries in storage order.
pub fn format_output(font_size: i32, font_data: &GlyphMap) -> (r: String)
    ensures
        r@ == output_spec(font_size, font_data@),
{
    let mut out: Vec<char> = Vec::new();
    push_str(&mut out, "return {\n    Size = ");
    push_dec_i32(&mut out, font_size);
    push_str(&mut out, ",\n    Characters = {\n");
    let ghost head = "return {\n    Size = "@ + dec_str_i32(font_size as int)
        + ",\n    Characters = {\n"@;
    let n = font_data.len();
    let mut i: usize = 0;
    proof {
        assert(font_data@.take(0) =~= Seq::<(u32, Character)>::empty());
        assert(out@ =~= head + entries_spec(font_data@.take(0)));
    }
    while i < n
        invariant
            0 <= i <= n,
            n == font_data@.len(),
            out@ == head + entries_spec(font_data@.take(i as int)),
        decreases n - i,
    {
        let e = font_data.entry_at(i);
        push_entry(&mut out, e.0, e.1);
        proof {
            assert(font_data@.take(i as int + 1).drop_last() =~= font_data@.take(i as int));
            assert(font_data@.take(i as int + 1).last() == font_data@[i as int]);
        }
        i = i + 1;
    }
    proof {
        assert(font_data@.take(n as int) =~= font_data@);
    }
    push_str(&mut out, "    }\n}\n");
    let r = chars_to_string(&out);
    proof {
        assert(r@ =~= output_spec(font_size, font_data@));
    }
    r
}

} // verus!
