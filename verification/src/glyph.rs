//! Glyph metrics and the ordered codepoint-to-glyph map.
//!
//! Glyph entries are kept in a vector sorted by strictly ascending
//! codepoint, so that emitting them in storage order yields a
//! deterministic output. Inserting an entry whose codepoint is
//! already present replaces the old entry: the last definition wins.

use vstd::prelude::*;

verus! {

/// Pixel offset applied when placing a glyph relative to the pen position.
#[derive(Clone, Copy, Debug, PartialEq, Eq, Structural)]
pub struct CharacterOffset {
    pub x: i32,
    pub y: i32,
}

/// Pixel extent of a glyph's subrectangle within the font atlas.
#[derive(Clone, Copy, Debug, PartialEq, Eq, Structural)]
pub struct CharacterSize {
    pub width: i32,
    pub height: i32,
}

/// Pixel coordinates of a glyph's top-left corner within the font atlas.
#[derive(Clone, Copy, Debug, PartialEq, Eq, Structural)]
pub struct CharacterPosition {
    pub x: i32,
    pub y: i32,
}

/// Metrics of a single glyph: atlas rectangle, draw offset and advance.
#[derive(Clone, Copy, Debug, PartialEq, Eq, Structural)]
pub struct Character {
    pub size: CharacterSize,
    pub position: CharacterPosition,
    pub offset: CharacterOffset,
    pub advance: i32,
}

/// The glyph whose five numeric fields are all zero; the starting
/// point for decoding a `char` element, before any attribute is read.
pub open spec fn zero_character() -> Character {
    Character {
        size: CharacterSize { width: 0, height: 0 },
        position: CharacterPosition { x: 0, y: 0 },
        offset: CharacterOffset { x: 0, y: 0 },
        advance: 0,
    }
}

/// Builds the all-zero glyph record.
pub fn new_zero_character() -> (c: Character)
    ensures
        c == zero_character(),
{
    Character {
        size: CharacterSize { width: 0, height: 0 },
        position: CharacterPosition { x: 0, y: 0 },
        offset: CharacterOffset { x: 0, y: 0 },
        advance: 0,
    }
}

/// Functional insertion into a sequence of entries sorted by
/// strictly ascending codepoint: the new entry lands before the
/// first entry with a larger codepoint, and replaces an entry with
/// an equal one.
pub open spec fn spec_insert(
    s: Seq<(u32, Character)>,
    id: u32,
    ch: Character,
) -> Seq<(u32, Character)>
    decreases s.len(),
{
    if s.len() == 0 {
        seq![(id, ch)]
    } else if s[0].0 < id {
        seq![s[0]] + spec_insert(s.drop_first(), id, ch)
    } else if s[0].0 == id {
        seq![(id, ch)] + s.drop_first()
    } else {
        seq![(id, ch)] + s
    }
}

/// Entries sorted by strictly ascending codepoint.
pub open spec fn sorted(s: Seq<(u32, Character)>) -> bool {
    forall|i: int, j: int| 0 <= i < j < s.len() ==> s[i].0 < s[j].0
}

/// A codepoint occurs among the entries.
pub open spec fn has_key(s: Seq<(u32, Character)>, id: u32) -> bool {
    exists|i: int| 0 <= i < s.len() && s[i].0 == id
}

/// Inserting keeps the entries sorted, the inserted entry is
/// present, every entry of the result was either inserted or
/// already there, and every other codepoint's presence is untouched.
pub proof fn lemma_spec_insert_sorted(s: Seq<(u32, Character)>, id: u32, ch: Character)
    requires
        sorted(s),
    ensures
        sorted(spec_insert(s, id, ch)),
        has_key(spec_insert(s, id, ch), id),
        forall|k: u32| k != id ==> (has_key(spec_insert(s, id, ch), k) <==> has_key(s, k)),
        forall|i: int|
            0 <= i < spec_insert(s, id, ch).len() ==> spec_insert(s, id, ch)[i].0 == id || has_key(
                s,
                spec_insert(s, id, ch)[i].0,
            ),
    decreases s.len(),
{
    let r = spec_insert(s, id, ch);
    if s.len() == 0 {
        assert(r[0].0 == id);
    } else if s[0].0 < id {
        let sdf = s.drop_first();
        assert(sorted(sdf));
        lemma_spec_insert_sorted(sdf, id, ch);
        let rr = spec_insert(sdf, id, ch);
        assert(r == seq![s[0]] + rr);
        assert forall|w: int| 0 <= w < sdf.len() implies sdf[w] == s[w + 1] by {}
        assert forall|i: int, j: int| 0 <= i < j < r.len() implies r[i].0 < r[j].0 by {
            if i == 0 {
                let key = rr[j - 1].0;
                if key == id {
                    assert(r[0].0 < id);
                } else {
                    assert(has_key(sdf, key));
                    let w = choose|w: int| 0 <= w < sdf.len() && sdf[w].0 == key;
                    assert(s[0].0 < s[w + 1].0);
                }
            } else {
                assert(rr[i - 1].0 < rr[j - 1].0);
            }
        }
        assert forall|k: u32| k != id implies (has_key(r, k) <==> has_key(s, k)) by {
            if has_key(r, k) {
                let i = choose|i: int| 0 <= i < r.len() && r[i].0 == k;
                if i == 0 {
                    assert(s[0].0 == k);
                } else {
                    assert(rr[i - 1].0 == k);
                    assert(has_key(rr, k));
                    let w = choose|w: int| 0 <= w < sdf.len() && sdf[w].0 == k;
                    assert(s[w + 1].0 == k);
                }
            }
            if has_key(s, k) {
                let i = choose|i: int| 0 <= i < s.len() && s[i].0 == k;
                if i == 0 {
                    assert(r[0].0 == k);
                } else {
                    assert(sdf[i - 1].0 == k);
                    assert(has_key(sdf, k));
                    assert(has_key(rr, k));
                    let w = choose|w: int| 0 <= w < rr.len() && rr[w].0 == k;
                    assert(r[w + 1].0 == k);
                }
            }
        }
        assert(has_key(rr, id));
        assert forall|i: int| 0 <= i < r.len() implies r[i].0 == id || has_key(s, r[i].0) by {
            if i == 0 {
                assert(s[0].0 == r[0].0);
            } else {
                let key = rr[i - 1].0;
                if key != id {
                    assert(has_key(sdf, key));
                    let w = choose|w: int| 0 <= w < sdf.len() && sdf[w].0 == key;
                    assert(s[w + 1].0 == key);
                }
            }
        }
        let w0 = choose|w: int| 0 <= w < rr.len() && rr[w].0 == id;
        assert(r[w0 + 1].0 == id);
    } else if s[0].0 == id {
        assert(r == seq![(id, ch)] + s.drop_first());
        assert forall|i: int, j: int| 0 <= i < j < r.len() implies r[i].0 < r[j].0 by {
            if i == 0 {
                assert(r[j].0 == s[j].0);
            } else {
                assert(r[i].0 == s[i].0 && r[j].0 == s[j].0);
            }
        }
        assert(r[0].0 == id);
        assert forall|k: u32| k != id implies (has_key(r, k) <==> has_key(s, k)) by {
            if has_key(r, k) {
                let i = choose|i: int| 0 <= i < r.len() && r[i].0 == k;
                assert(s[i].0 == k);
            }
            if has_key(s, k) {
                let i = choose|i: int| 0 <= i < s.len() && s[i].0 == k;
                assert(r[i].0 == k);
            }
        }
        assert forall|i: int| 0 <= i < r.len() implies r[i].0 == id || has_key(s, r[i].0) by {
            if i > 0 {
                assert(s[i].0 == r[i].0);
            }
        }
    } else {
        assert(r == seq![(id, ch)] + s);
        assert(r[0].0 == id);
        assert forall|i: int, j: int| 0 <= i < j < r.len() implies r[i].0 < r[j].0 by {
            if i == 0 {
                assert(r[j].0 == s[j - 1].0);
            } else {
                assert(r[i].0 == s[i - 1].0 && r[j].0 == s[j - 1].0);
            }
        }
        assert forall|k: u32| k != id implies (has_key(r, k) <==> has_key(s, k)) by {
            if has_key(r, k) {
                let i = choose|i: int| 0 <= i < r.len() && r[i].0 == k;
                assert(s[i - 1].0 == k);
            }
            if has_key(s, k) {
                let i = choose|i: int| 0 <= i < s.len() && s[i].0 == k;
                assert(r[i + 1].0 == k);
            }
        }
        assert forall|i: int| 0 <= i < r.len() implies r[i].0 == id || has_key(s, r[i].0) by {
            if i > 0 {
                assert(s[i - 1].0 == r[i].0);
            }
        }
    }
}

/// A codepoint maps to a glyph among the entries.
pub open spec fn maps_to(s: Seq<(u32, Character)>, id: u32, ch: Character) -> bool {
    exists|i: int| 0 <= i < s.len() && s[i] == (id, ch)
}

/// Law: the sorted entry sequence is canonical. Two sorted
/// sequences holding exactly the same codepoint-to-glyph pairs are
/// identical, so anything rendered from the entries depends only on
/// the mapping, never on how it was built up.
pub proof fn lemma_sorted_entries_canonical(s1: Seq<(u32, Character)>, s2: Seq<(u32, Character)>)
    requires
        sorted(s1),
        sorted(s2),
        forall|id: u32, ch: Character| maps_to(s1, id, ch) <==> maps_to(s2, id, ch),
    ensures
        s1 =~= s2,
    decreases s1.len(),
{
    if s1.len() == 0 {
        if s2.len() > 0 {
            assert(maps_to(s2, s2[0].0, s2[0].1));
            assert(maps_to(s1, s2[0].0, s2[0].1));
            let i = choose|i: int| 0 <= i < s1.len() && s1[i] == (s2[0].0, s2[0].1);
            assert(false);
        }
    } else {
        assert(maps_to(s1, s1[0].0, s1[0].1));
        assert(maps_to(s2, s1[0].0, s1[0].1));
        let j = choose|j: int| 0 <= j < s2.len() && s2[j] == (s1[0].0, s1[0].1);
        assert(maps_to(s2, s2[0].0, s2[0].1));
        assert(maps_to(s1, s2[0].0, s2[0].1));
        let i = choose|i: int| 0 <= i < s1.len() && s1[i] == (s2[0].0, s2[0].1);
        assert(s1[0].0 <= s1[i].0);
        assert(s2[0].0 <= s2[j].0);
        assert(s1[0].0 == s2[0].0);
        assert(j == 0);
        assert(s2[0] == s1[0]);
        let t1 = s1.drop_first();
        let t2 = s2.drop_first();
        assert(forall|w: int| 0 <= w < t1.len() ==> t1[w] == s1[w + 1]);
        assert(forall|w: int| 0 <= w < t2.len() ==> t2[w] == s2[w + 1]);
        assert(sorted(t1));
        assert(sorted(t2));
        assert forall|id: u32, ch: Character| maps_to(t1, id, ch) implies maps_to(t2, id, ch) by {
            let w = choose|w: int| 0 <= w < t1.len() && t1[w] == (id, ch);
            assert(s1[w + 1] == (id, ch));
            assert(maps_to(s1, id, ch));
            assert(maps_to(s2, id, ch));
            let v = choose|v: int| 0 <= v < s2.len() && s2[v] == (id, ch);
            assert(s1[0].0 < s1[w + 1].0);
            assert(v != 0);
            assert(t2[v - 1] == (id, ch));
        }
        assert forall|id: u32, ch: Character| maps_to(t2, id, ch) implies maps_to(t1, id, ch) by {
            let w = choose|w: int| 0 <= w < t2.len() && t2[w] == (id, ch);
            assert(s2[w + 1] == (id, ch));
            assert(maps_to(s2, id, ch));
            assert(maps_to(s1, id, ch));
            let v = choose|v: int| 0 <= v < s1.len() && s1[v] == (id, ch);
            assert(s2[0].0 < s2[w + 1].0);
            assert(v != 0);
            assert(t1[v - 1] == (id, ch));
        }
        lemma_sorted_entries_canonical(t1, t2);
        assert(s1 =~= seq![s1[0]] + t1);
        assert(s2 =~= seq![s2[0]] + t2);
    }
}

/// Law: of two definitions of the same codepoint, the later one
/// wins; inserting under a codepoint and then inserting again under
/// it leaves exactly what inserting the second glyph alone leaves.
pub proof fn lemma_insert_last_wins(s: Seq<(u32, Character)>, id: u32, c1: Character, c2: Character)
    ensures
        spec_insert(spec_insert(s, id, c1), id, c2) == spec_insert(s, id, c2),
    decreases s.len(),
{
    let r1 = spec_insert(s, id, c1);
    if s.len() == 0 {
        assert(spec_insert(r1, id, c2) =~= spec_insert(s, id, c2));
    } else if s[0].0 < id {
        lemma_insert_last_wins(s.drop_first(), id, c1, c2);
        assert(r1.drop_first() =~= spec_insert(s.drop_first(), id, c1));
        assert(spec_insert(r1, id, c2) =~= spec_insert(s, id, c2));
    } else if s[0].0 == id {
        assert(r1.drop_first() =~= s.drop_first());
        assert(spec_insert(r1, id, c2) =~= spec_insert(s, id, c2));
    } else {
        assert(r1.drop_first() =~= s);
        assert(spec_insert(r1, id, c2) =~= spec_insert(s, id, c2));
    }
}

/// Law: definitions of two distinct codepoints land at the places
/// their codepoints order them to, whichever arrives first; the two
/// insertions commute.
pub proof fn lemma_insert_commutes(
    s: Seq<(u32, Character)>,
    a: u32,
    ca: Character,
    b: u32,
    cb: Character,
)
    requires
        a != b,
    ensures
        spec_insert(spec_insert(s, a, ca), b, cb) == spec_insert(spec_insert(s, b, cb), a, ca),
    decreases s.len(),
{
    let ra = spec_insert(s, a, ca);
    let rb = spec_insert(s, b, cb);
    if s.len() == 0 {
        assert(ra =~= seq![(a, ca)]);
        assert(rb =~= seq![(b, cb)]);
        if a < b {
            assert(spec_insert(ra.drop_first(), b, cb) =~= seq![(b, cb)]);
            assert(spec_insert(ra, b, cb) =~= seq![(a, ca), (b, cb)]);
            assert(spec_insert(rb, a, ca) =~= seq![(a, ca)] + rb);
            assert(spec_insert(rb, a, ca) =~= seq![(a, ca), (b, cb)]);
        } else {
            assert(spec_insert(rb.drop_first(), a, ca) =~= seq![(a, ca)]);
            assert(spec_insert(rb, a, ca) =~= seq![(b, cb), (a, ca)]);
            assert(spec_insert(ra, b, cb) =~= seq![(b, cb)] + ra);
            assert(spec_insert(ra, b, cb) =~= seq![(b, cb), (a, ca)]);
        }
    } else if s[0].0 < a && s[0].0 < b {
        lemma_insert_commutes(s.drop_first(), a, ca, b, cb);
        assert(ra.drop_first() =~= spec_insert(s.drop_first(), a, ca));
        assert(rb.drop_first() =~= spec_insert(s.drop_first(), b, cb));
        assert(spec_insert(ra, b, cb) =~= seq![s[0]] + spec_insert(
            spec_insert(s.drop_first(), a, ca),
            b,
            cb,
        ));
        assert(spec_insert(rb, a, ca) =~= seq![s[0]] + spec_insert(
            spec_insert(s.drop_first(), b, cb),
            a,
            ca,
        ));
    } else if s[0].0 == a {
        if b < a {
            assert(rb =~= seq![(b, cb)] + s);
            assert(rb.drop_first() =~= s);
            assert(spec_insert(rb, a, ca) =~= seq![(b, cb)] + spec_insert(s, a, ca));
            assert(spec_insert(ra, b, cb) =~= seq![(b, cb)] + ra);
        } else {
            assert(ra.drop_first() =~= s.drop_first());
            assert(rb.drop_first() =~= spec_insert(s.drop_first(), b, cb));
            assert(spec_insert(ra, b, cb) =~= seq![(a, ca)] + spec_insert(s.drop_first(), b, cb));
            assert(spec_insert(rb, a, ca) =~= seq![(a, ca)] + spec_insert(s.drop_first(), b, cb));
        }
    } else if s[0].0 == b {
        if a < b {
            assert(ra =~= seq![(a, ca)] + s);
            assert(ra.drop_first() =~= s);
            assert(spec_insert(ra, b, cb) =~= seq![(a, ca)] + spec_insert(s, b, cb));
            assert(spec_insert(rb, a, ca) =~= seq![(a, ca)] + rb);
        } else {
            assert(rb.drop_first() =~= s.drop_first());
            assert(ra.drop_first() =~= spec_insert(s.drop_first(), a, ca));
            assert(spec_insert(rb, a, ca) =~= seq![(b, cb)] + spec_insert(s.drop_first(), a, ca));
            assert(spec_insert(ra, b, cb) =~= seq![(b, cb)] + spec_insert(s.drop_first(), a, ca));
        }
    } else if s[0].0 > a && s[0].0 > b {
        if a < b {
            assert(ra.drop_first() =~= s);
            assert(rb.drop_first() =~= s);
            assert(spec_insert(ra, b, cb) =~= seq![(a, ca)] + spec_insert(s, b, cb));
            assert(spec_insert(rb, a, ca) =~= seq![(a, ca)] + rb);
        } else {
            assert(ra.drop_first() =~= s);
            assert(rb.drop_first() =~= s);
            assert(spec_insert(rb, a, ca) =~= seq![(b, cb)] + spec_insert(s, a, ca));
            assert(spec_insert(ra, b, cb) =~= seq![(b, cb)] + ra);
        }
    } else if s[0].0 > a {
        assert(a < s[0].0 < b);
        assert(ra =~= seq![(a, ca)] + s);
        assert(ra.drop_first() =~= s);
        assert(rb.drop_first() =~= spec_insert(s.drop_first(), b, cb));
        assert(spec_insert(ra, b, cb) =~= seq![(a, ca)] + spec_insert(s, b, cb));
        assert(spec_insert(rb, a, ca) =~= seq![(a, ca)] + rb);
    } else {
        assert(b < s[0].0 < a);
        assert(rb =~= seq![(b, cb)] + s);
        assert(rb.drop_first() =~= s);
        assert(ra.drop_first() =~= spec_insert(s.drop_first(), a, ca));
        assert(spec_insert(rb, a, ca) =~= seq![(b, cb)] + spec_insert(s, a, ca));
        assert(spec_insert(ra, b, cb) =~= seq![(b, cb)] + ra);
    }
}

/// An ordered map from codepoint to glyph metrics, stored as a
/// vector of entries sorted by strictly ascending codepoint.
#[derive(Debug)]
pub struct GlyphMap {
    entries: Vec<(u32, Character)>,
}

impl View for GlyphMap {
    type V = Seq<(u32, Character)>;

    closed spec fn view(&self) -> Seq<(u32, Character)> {
        self.entries@
    }
}

impl GlyphMap {
    /// The entries are sorted by strictly ascending codepoint.
    pub open spec fn wf(&self) -> bool {
        sorted(self@)
    }

    /// Creates an empty map.
    pub fn new() -> (m: GlyphMap)
        ensures
            m@ == Seq::<(u32, Character)>::empty(),
            m.wf(),
    {
        GlyphMap { entries: Vec::new() }
    }

    /// Number of glyphs held.
    pub fn len(&self) -> (n: usize)
        ensures
            n == self@.len(),
    {
        self.entries.len()
    }

    /// The entry at a storage position, in ascending codepoint order.
    pub fn entry_at(&self, i: usize) -> (e: (u32, Character))
        requires
            i < self@.len(),
        ensures
            e == self@[i as int],
    {
        self.entries[i]
    }

    /// Inserts a glyph under its codepoint, keeping the entries
    /// sorted; an entry already present under the same codepoint is
    /// replaced, so the last definition wins.
    pub fn insert(&mut self, id: u32, ch: Character)
        requires
            old(self).wf(),
        ensures
            final(self)@ == spec_insert(old(self)@, id, ch),
            final(self).wf(),
    {
        proof {
            lemma_spec_insert_sorted(self@, id, ch);
        }
        let ghost s = self@;
        let mut i: usize = 0;
        while i < self.entries.len() && self.entries[i].0 < id
            invariant
                0 <= i <= s.len(),
                self@ == s,
                forall|j: int| 0 <= j < i ==> s[j].0 < id,
            decreases s.len() - i,
        {
            i = i + 1;
        }
        if i < self.entries.len() && self.entries[i].0 == id {
            self.entries[i] = (id, ch);
            proof {
                lemma_insert_at_replace(s, id, ch, i as int);
                assert(self@ =~= spec_insert(s, id, ch));
            }
        } else {
            self.entries.insert(i, (id, ch));
            proof {
                lemma_insert_at_fresh(s, id, ch, i as int);
                assert(self@ =~= spec_insert(s, id, ch));
            }
        }
    }
}

/// When the first `i` entries have smaller codepoints and entry `i`
/// has an equal one, `spec_insert` replaces entry `i` in place.
proof fn lemma_insert_at_replace(s: Seq<(u32, Character)>, id: u32, ch: Character, i: int)
    requires
        sorted(s),
        0 <= i < s.len(),
        forall|j: int| 0 <= j < i ==> s[j].0 < id,
        s[i].0 == id,
    ensures
        spec_insert(s, id, ch) =~= s.update(i, (id, ch)),
    decreases i,
{
    if i == 0 {
        assert(spec_insert(s, id, ch) == seq![(id, ch)] + s.drop_first());
    } else {
        assert(s[0].0 < id);
        lemma_insert_at_replace(s.drop_first(), id, ch, i - 1);
        assert(spec_insert(s, id, ch) == seq![s[0]] + s.drop_first().update(i - 1, (id, ch)));
    }
}

/// When the first `i` entries have smaller codepoints and entry `i`
/// (if any) has a larger one, `spec_insert` splices the new entry in
/// at position `i`.
proof fn lemma_insert_at_fresh(s: Seq<(u32, Character)>, id: u32, ch: Character, i: int)
    requires
        sorted(s),
        0 <= i <= s.len(),
        forall|j: int| 0 <= j < i ==> s[j].0 < id,
        i < s.len() ==> s[i].0 > id,
    ensures
        spec_insert(s, id, ch) =~= s.take(i) + seq![(id, ch)] + s.skip(i),
    decreases i,
{
    if s.len() == 0 {
        assert(spec_insert(s, id, ch) =~= seq![(id, ch)]);
    } else if i == 0 {
        assert(s[0].0 > id);
    } else {
        assert(s[0].0 < id);
        lemma_insert_at_fresh(s.drop_first(), id, ch, i - 1);
        assert(s.take(i) =~= seq![s[0]] + s.drop_first().take(i - 1));
        assert(s.skip(i) =~= s.drop_first().skip(i - 1));
    }
}

} // verus!
