//! Packing glyph bitmaps into a square texture, row by row.

use std::collections::HashMap;

use vstd::math;
use vstd::prelude::*;

verus! {

/// The side of the texture, in pixels.
pub const ATLAS_SIZE: u32 = 2048;

/// Where the next glyph goes: its left edge, the top edge of the current row,
/// and the height of that row so far.
#[derive(Debug, Clone, Copy, PartialEq, Eq, Structural)]
pub struct Packer {
    pub pack_x: u32,
    pub pack_y: u32,
    pub row_h: u32,
}

impl Packer {
    pub open spec fn empty() -> Packer {
        Packer { pack_x: 0, pack_y: 0, row_h: 0 }
    }

    /// What holds of every packer.
    pub open spec fn wf(self) -> bool {
        &&& self.pack_x <= ATLAS_SIZE + 1
        &&& self.pack_y + self.row_h <= ATLAS_SIZE + 1
    }

    /// The row that a glyph of width `w` goes into: the current one, or a new
    /// one where it does not fit.
    pub open spec fn row_for(self, w: int) -> Packer {
        if self.pack_x + w > ATLAS_SIZE {
            Packer { pack_x: 0, pack_y: (self.pack_y + self.row_h) as u32, row_h: 0 }
        } else {
            self
        }
    }

    /// Whether a glyph of height `h` fits below the current row's top.
    pub open spec fn has_room(self, h: int) -> bool {
        self.pack_y + h <= ATLAS_SIZE
    }

    /// A glyph of this size put at the place that was reserved for it, with a
    /// gap of one pixel to the next.
    pub open spec fn taken(self, w: int, h: int) -> Packer {
        Packer {
            pack_x: (self.pack_x + w + 1) as u32,
            pack_y: self.pack_y,
            row_h: math::max(self.row_h as int, h + 1) as u32,
        }
    }

    /// An empty texture.
    pub fn new() -> (r: Self)
        ensures
            r == Packer::empty(),
            r.wf(),
    {
        Packer { pack_x: 0, pack_y: 0, row_h: 0 }
    }

    /// Finds the place for a glyph: its left and top edge, or `None` where the
    /// texture is full, or where the glyph is wider than the texture. A new row
    /// is begun where the glyph does not fit the current one, also when it turns
    /// out to have no place.
    pub fn reserve(&mut self, w: u32, h: u32) -> (r: Option<(u32, u32)>)
        requires
            old(self).wf(),
        ensures
            *final(self) == old(self).row_for(w as int),
            final(self).wf(),
            r == if final(self).has_room(h as int) && w <= ATLAS_SIZE {
                Some((final(self).pack_x, final(self).pack_y))
            } else {
                None
            },
            r is Some ==> final(self).pack_x + w <= ATLAS_SIZE,
    {
        if self.pack_x > ATLAS_SIZE || w > ATLAS_SIZE - self.pack_x {
            self.pack_x = 0;
            self.pack_y = self.pack_y + self.row_h;
            self.row_h = 0;
        }
        if self.pack_y > ATLAS_SIZE || h > ATLAS_SIZE - self.pack_y || w > ATLAS_SIZE {
            None
        } else {
            Some((self.pack_x, self.pack_y))
        }
    }

    /// Takes the place that was reserved.
    pub fn commit(&mut self, w: u32, h: u32)
        requires
            old(self).wf(),
            old(self).pack_x + w <= ATLAS_SIZE,
            old(self).has_room(h as int),
        ensures
            *final(self) == old(self).taken(w as int, h as int),
            final(self).wf(),
    {
        self.pack_x = self.pack_x + w + 1;
        if h + 1 > self.row_h {
            self.row_h = h + 1;
        }
    }
}

/// A glyph that was placed.
pub struct Placed {
    pub x: int,
    pub y: int,
    pub w: int,
    pub h: int,
}

/// Two glyphs with no pixel in common.
pub open spec fn disjoint(a: Placed, b: Placed) -> bool {
    a.x + a.w <= b.x || b.x + b.w <= a.x || a.y + a.h <= b.y || b.y + b.h <= a.y
}

/// Within the texture.
pub open spec fn inside(a: Placed) -> bool {
    0 <= a.x && a.x + a.w <= ATLAS_SIZE && 0 <= a.y && a.y + a.h <= ATLAS_SIZE
}

/// What was placed lies in rows above the current one, or left in the current one.
pub open spec fn behind(p: Packer, a: Placed) -> bool {
    a.y + a.h < p.pack_y || a.y == p.pack_y && a.h < p.row_h && a.x + a.w < p.pack_x
}

/// A glyph in the texture, and where it is drawn relative to its cell's baseline.
#[derive(Debug, Clone, Copy, PartialEq, Eq, Structural)]
pub struct GlyphEntry {
    pub atlas_x: u32,
    pub atlas_y: u32,
    pub width: u32,
    pub height: u32,
    pub bearing_x: i32,
    pub bearing_y: i32,
}

impl GlyphEntry {
    /// The glyph's place in the texture.
    pub open spec fn place(self) -> Placed {
        Placed {
            x: self.atlas_x as int,
            y: self.atlas_y as int,
            w: self.width as int,
            h: self.height as int,
        }
    }
}

/// The glyphs in the texture, by character.
#[derive(Debug)]
pub struct GlyphTable {
    entries: HashMap<u32, GlyphEntry>,
    packer: Packer,
}

/// The model of a glyph table.
#[verifier::ext_equal]
pub struct GlyphTableModel {
    pub entries: Map<u32, GlyphEntry>,
    pub packer: Packer,
}

impl View for GlyphTable {
    type V = GlyphTableModel;

    closed spec fn view(&self) -> GlyphTableModel {
        GlyphTableModel { entries: self.entries@, packer: self.packer }
    }
}

impl GlyphTableModel {
    pub open spec fn empty() -> GlyphTableModel {
        GlyphTableModel { entries: Map::empty(), packer: Packer::empty() }
    }

    /// What holds of every glyph table: the glyphs lie within the texture, and
    /// no two of them have a pixel in common.
    pub open spec fn wf(self) -> bool {
        &&& self.packer.wf()
        &&& forall|k: u32|
            #[trigger] self.entries.contains_key(k) ==> inside(self.entries[k].place()) && behind(
                self.packer,
                self.entries[k].place(),
            )
        &&& forall|a: u32, b: u32|
            #[trigger] self.entries.contains_key(a) && #[trigger] self.entries.contains_key(b) && a
                != b ==> disjoint(self.entries[a].place(), self.entries[b].place())
    }

    /// The table after a place was looked for.
    pub open spec fn reserved(self, w: int) -> GlyphTableModel {
        GlyphTableModel { packer: self.packer.row_for(w), ..self }
    }

    /// The entry for a glyph at the place that was reserved for it.
    pub open spec fn entry_here(self, w: u32, h: u32, bearing_x: i32, bearing_y: i32) -> GlyphEntry {
        GlyphEntry {
            atlas_x: self.packer.pack_x,
            atlas_y: self.packer.pack_y,
            width: w,
            height: h,
            bearing_x,
            bearing_y,
        }
    }
}

/// What is known of a character's glyph.
#[derive(Debug, Clone, Copy, PartialEq, Eq, Structural)]
pub enum Lookup {
    /// It is in the texture.
    Found(GlyphEntry),
    /// Nothing is drawn for this character.
    Blank,
    /// It has to be drawn first: with the primary font, and with each fallback
    /// font in turn until one has it.
    Missing,
}

impl GlyphTable {
    /// An empty table.
    pub fn new() -> (r: Self)
        ensures
            r@ == GlyphTableModel::empty(),
            r@.wf(),
    {
        broadcast use vstd::std_specs::hash::group_hash_axioms;

        GlyphTable { entries: HashMap::new(), packer: Packer::new() }
    }

    /// Forgets all glyphs, to draw them anew at another size.
    pub fn clear(&mut self)
        ensures
            final(self)@ == GlyphTableModel::empty(),
            final(self)@.wf(),
    {
        broadcast use vstd::std_specs::hash::group_hash_axioms;

        self.entries.clear();
        self.packer = Packer::new();
    }

    /// Looks a character's glyph up.
    pub fn lookup(&self, ch: char) -> (r: Lookup)
        ensures
            r == if self@.entries.contains_key(ch as u32) {
                Lookup::Found(self@.entries[ch as u32])
            } else if ch == ' ' || ch == '\0' {
                Lookup::Blank
            } else {
                Lookup::Missing
            },
    {
        broadcast use vstd::std_specs::hash::group_hash_axioms;

        let key: u32 = ch as u32;
        match self.entries.get(&key) {
            Some(entry) => Lookup::Found(*entry),
            None => {
                if ch == ' ' || ch == '\0' {
                    Lookup::Blank
                } else {
                    Lookup::Missing
                }
            },
        }
    }

    /// Finds the place for a glyph: its left and top edge. `None` where there is
    /// nothing to draw, where the texture is full, or where the glyph is wider
    /// than the texture.
    pub fn reserve(&mut self, w: u32, h: u32) -> (r: Option<(u32, u32)>)
        requires
            old(self)@.wf(),
        ensures
            w == 0 || h == 0 ==> r is None && final(self)@ == old(self)@,
            w > 0 && h > 0 ==> {
                &&& final(self)@ == old(self)@.reserved(w as int)
                &&& r == if final(self)@.packer.has_room(h as int) && w <= ATLAS_SIZE {
                    Some((final(self)@.packer.pack_x, final(self)@.packer.pack_y))
                } else {
                    None
                }
            },
            final(self)@.wf(),
            r is Some ==> final(self)@.packer.pack_x + w <= ATLAS_SIZE
                && final(self)@.packer.has_room(h as int),
    {
        if w == 0 || h == 0 {
            return None;
        }
        let r = self.packer.reserve(w, h);
        proof {
            let before = old(self)@;
            assert forall|k: u32| #[trigger] before.entries.contains_key(k) implies behind(
                self@.packer,
                before.entries[k].place(),
            ) by {
                assert(behind(before.packer, before.entries[k].place()));
            }
            assert(self@ =~= before.reserved(w as int));
            assert(self@.wf());
        }
        r
    }

    /// Enters a glyph at the place that was reserved for it.
    pub fn insert(&mut self, ch: char, w: u32, h: u32, bearing_x: i32, bearing_y: i32) -> (entry:
        GlyphEntry)
        requires
            old(self)@.wf(),
            old(self)@.packer.pack_x + w <= ATLAS_SIZE,
            old(self)@.packer.has_room(h as int),
        ensures
            entry == old(self)@.entry_here(w, h, bearing_x, bearing_y),
            final(self)@ == (GlyphTableModel {
                entries: old(self)@.entries.insert(ch as u32, entry),
                packer: old(self)@.packer.taken(w as int, h as int),
            }),
            final(self)@.wf(),
    {
        broadcast use vstd::std_specs::hash::group_hash_axioms;

        let entry = GlyphEntry {
            atlas_x: self.packer.pack_x,
            atlas_y: self.packer.pack_y,
            width: w,
            height: h,
            bearing_x,
            bearing_y,
        };
        self.packer.commit(w, h);
        self.entries.insert(ch as u32, entry);
        proof {
            let before = old(self)@;
            let after = self@;
            let key = ch as u32;
            assert(after.entries == before.entries.insert(key, entry));
            assert forall|k: u32| #[trigger] after.entries.contains_key(k) implies inside(
                after.entries[k].place(),
            ) && behind(after.packer, after.entries[k].place()) by {
                if k != key {
                    assert(before.entries.contains_key(k));
                }
            }
            assert forall|a: u32, b: u32|
                #[trigger] after.entries.contains_key(a) && #[trigger] after.entries.contains_key(b)
                    && a != b implies disjoint(
                after.entries[a].place(),
                after.entries[b].place(),
            ) by {
                if a != key {
                    assert(before.entries.contains_key(a));
                }
                if b != key {
                    assert(before.entries.contains_key(b));
                }
            }
        }
        entry
    }
}

/// A glyph goes into the current row where it fits, and else to the start of a new row
/// right below the current one. Once it is taken, the next one starts a pixel behind
/// it, and the row is at least a pixel higher than it.
pub proof fn glyphs_are_packed_densely(p: Packer, w: int, h: int)
    requires
        p.wf(),
        0 <= w <= 2048,
        0 <= h,
    ensures
        ({
            let row = p.row_for(w);
            &&& p.pack_x + w <= 2048 ==> row == p
            &&& p.pack_x + w > 2048 ==> row.pack_x == 0 && row.pack_y == p.pack_y + p.row_h
                && row.row_h == 0
            &&& row.has_room(h) == (row.pack_y + h <= 2048)
            &&& row.has_room(h) ==> {
                let next = row.taken(w, h);
                &&& next.pack_x == row.pack_x + w + 1
                &&& next.pack_y == row.pack_y
                &&& next.row_h >= h + 1 && next.row_h >= row.row_h
                &&& next.row_h == h + 1 || next.row_h == row.row_h
            }
        }),
{
    assert(ATLAS_SIZE == 2048);
}

} // verus!
