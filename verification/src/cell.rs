//! A single terminal cell: character, foreground and background color, attributes.

use vstd::prelude::*;

verus! {

/// Color slot for foreground or background.
///
/// `Default` means "use the terminal's configured default", which is resolved
/// to a concrete color at paint time. `Indexed` covers the ANSI 16-color
/// palette (0-15) and the 256-color table (16-255). `Rgb` is truecolor.
#[derive(Debug, Clone, Copy, PartialEq, Eq, Structural)]
pub enum Color {
    Default,
    Indexed(u8),
    Rgb(u8, u8, u8),
}

impl Default for Color {
    fn default() -> (r: Self)
        ensures
            r == Color::Default,
    {
        Color::Default
    }
}

/// Per-cell text attributes, one bit each. The associated constants are the
/// masks of the single attributes; masks combine with `|`.
#[derive(Debug, Clone, Copy, PartialEq, Eq, Structural)]
pub struct Attrs {
    pub bits: u8,
}

impl Attrs {
    pub const BOLD: u8 = 1;

    pub const DIM: u8 = 2;

    pub const ITALIC: u8 = 4;

    pub const UNDERLINE: u8 = 8;

    pub const REVERSE: u8 = 16;

    pub const HIDDEN: u8 = 32;

    pub const STRIKE: u8 = 64;

    /// No attribute at all.
    pub open spec fn none() -> Attrs {
        Attrs { bits: 0 }
    }

    /// These attributes with those of `mask` added.
    pub open spec fn with(self, mask: u8) -> Attrs {
        Attrs { bits: self.bits | mask }
    }

    /// These attributes with those of `mask` taken away.
    pub open spec fn without(self, mask: u8) -> Attrs {
        Attrs { bits: self.bits & !mask }
    }

    /// Whether every attribute of `mask` is set.
    pub open spec fn has(self, mask: u8) -> bool {
        self.bits & mask == mask
    }

    pub fn empty() -> (r: Attrs)
        ensures
            r == Attrs::none(),
    {
        Attrs { bits: 0 }
    }

    pub fn contains(&self, mask: u8) -> (r: bool)
        ensures
            r == self.has(mask),
    {
        self.bits & mask == mask
    }

    pub fn insert(&mut self, mask: u8)
        ensures
            *final(self) == old(self).with(mask),
    {
        self.bits = self.bits | mask;
    }

    pub fn remove(&mut self, mask: u8)
        ensures
            *final(self) == old(self).without(mask),
    {
        self.bits = self.bits & !mask;
    }
}

impl Default for Attrs {
    fn default() -> (r: Self)
        ensures
            r == Attrs::none(),
    {
        Attrs::empty()
    }
}

/// Setting attributes makes exactly those set and keeps every other one;
/// clearing them makes exactly those unset and keeps every other one.
pub proof fn attrs_change_only_the_mask(a: Attrs, mask: u8, other: u8)
    requires
        mask & other == 0,
    ensures
        a.with(mask).has(mask),
        a.with(mask).has(other) == a.has(other),
        a.without(mask).bits & mask == 0,
        a.without(mask).has(other) == a.has(other),
{
    let b = a.bits;
    assert((b | mask) & mask == mask) by (bit_vector);
    assert(mask & other == 0 ==> (b | mask) & other == b & other) by (bit_vector);
    assert((b & !mask) & mask == 0) by (bit_vector);
    assert(mask & other == 0 ==> (b & !mask) & other == b & other) by (bit_vector);
}

/// One cell in the grid.
#[derive(Debug, Clone, Copy, PartialEq, Eq, Structural)]
pub struct Cell {
    pub ch: char,
    pub fg: Color,
    pub bg: Color,
    pub attrs: Attrs,
}

impl Cell {
    /// The empty cell: a space in default colors.
    pub open spec fn space() -> Cell {
        Cell { ch: ' ', fg: Color::Default, bg: Color::Default, attrs: Attrs::none() }
    }

    /// An empty cell using default colors, equivalent to a space.
    pub fn blank() -> (r: Cell)
        ensures
            r == Cell::space(),
    {
        Cell { ch: ' ', fg: Color::Default, bg: Color::Default, attrs: Attrs::empty() }
    }
}

impl Default for Cell {
    fn default() -> (r: Self)
        ensures
            r == Cell::space(),
    {
        Cell::blank()
    }
}

/// The drawing "pen" currently held by the terminal: the colors and attributes
/// stamped onto every newly printed cell.
#[derive(Debug, Clone, Copy, PartialEq, Eq, Structural)]
pub struct Pen {
    pub fg: Color,
    pub bg: Color,
    pub attrs: Attrs,
}

impl Pen {
    /// The pen a terminal starts with.
    pub open spec fn plain() -> Pen {
        Pen { fg: Color::Default, bg: Color::Default, attrs: Attrs::none() }
    }

    /// The cell that this pen draws for `ch`.
    pub open spec fn draws(self, ch: char) -> Cell {
        Cell { ch, fg: self.fg, bg: self.bg, attrs: self.attrs }
    }

    pub fn reset(&mut self)
        ensures
            *final(self) == Pen::plain(),
    {
        self.fg = Color::Default;
        self.bg = Color::Default;
        self.attrs = Attrs::empty();
    }

    pub fn stamp(&self, ch: char) -> (r: Cell)
        ensures
            r == self.draws(ch),
    {
        Cell { ch, fg: self.fg, bg: self.bg, attrs: self.attrs }
    }
}

impl Default for Pen {
    fn default() -> (r: Self)
        ensures
            r == Pen::plain(),
    {
        Pen { fg: Color::Default, bg: Color::Default, attrs: Attrs::empty() }
    }
}

/// Having several attributes is having each of them.
pub proof fn having_all_is_having_each(a: Attrs, x: u8, y: u8)
    ensures
        a.has(x | y) == (a.has(x) && a.has(y)),
        a.has(0),
        !(Attrs { bits: 0 }).has(x) || x == 0,
{
    let b = a.bits;
    assert((b & (x | y) == x | y) == (b & x == x && b & y == y)) by (bit_vector);
    assert(b & 0 == 0) by (bit_vector);
    assert(0u8 & x == 0) by (bit_vector);
}

} // verus!
