//! Cells of the character grid: attributes, colours, cursor style, selection.

use vstd::prelude::*;

verus! {

/// Text attributes of a cell, as a set of bits.
#[derive(Debug, Clone, Copy, PartialEq, Eq, Structural)]
pub struct CellAttrs {
    pub bits: u16,
}

impl CellAttrs {
    pub const BOLD: u16 = 0b0000_0001;

    pub const DIM: u16 = 0b0000_0010;

    pub const ITALIC: u16 = 0b0000_0100;

    pub const UNDERLINE: u16 = 0b0000_1000;

    pub const BLINK: u16 = 0b0001_0000;

    pub const INVERSE: u16 = 0b0010_0000;

    pub const HIDDEN: u16 = 0b0100_0000;

    pub const STRIKETHROUGH: u16 = 0b1000_0000;

    /// The cell holds the left half of a double-width character.
    pub const WIDE: u16 = 0b0001_0000_0000;

    /// The cell holds the right half of a double-width character.
    pub const WIDE_TAIL: u16 = 0b0010_0000_0000;

    /// The set with no attribute, as a value of the specifications.
    pub open spec fn none() -> CellAttrs {
        CellAttrs { bits: 0 }
    }

    /// Every bit of `mask` is set.
    pub open spec fn has(self, mask: u16) -> bool {
        self.bits & mask == mask
    }

    /// The set together with the bits of `mask`.
    pub open spec fn plus(self, mask: u16) -> CellAttrs {
        CellAttrs { bits: self.bits | mask }
    }

    /// The set without the bits of `mask`.
    pub open spec fn minus(self, mask: u16) -> CellAttrs {
        CellAttrs { bits: self.bits & !mask }
    }

    /// No attribute.
    pub fn empty() -> (r: CellAttrs)
        ensures
            r == CellAttrs::none(),
    {
        CellAttrs { bits: 0 }
    }

    /// Whether all bits of `mask` are set.
    pub fn contains(&self, mask: u16) -> (r: bool)
        ensures
            r == self.has(mask),
    {
        self.bits & mask == mask
    }

    /// Sets the bits of `mask`.
    pub fn insert(&self, mask: u16) -> (r: CellAttrs)
        ensures
            r == self.plus(mask),
    {
        CellAttrs { bits: self.bits | mask }
    }

    /// Clears the bits of `mask`.
    pub fn remove(&self, mask: u16) -> (r: CellAttrs)
        ensures
            r == self.minus(mask),
    {
        CellAttrs { bits: self.bits & !mask }
    }
}

/// Inserting a mask makes it present, removing it clears each of its bits, and neither touches
/// a bit outside the mask.
pub proof fn law_attrs_insert_remove(a: CellAttrs, mask: u16, other: u16)
    ensures
        a.plus(mask).has(mask),
        a.minus(mask).bits & mask == 0,
        other & mask == 0 ==> a.plus(mask).has(other) == a.has(other),
        other & mask == 0 ==> a.minus(mask).has(other) == a.has(other),
{
    let b = a.bits;
    assert((b | mask) & mask == mask) by (bit_vector);
    assert((b & !mask) & mask == 0) by (bit_vector);
    assert(other & mask == 0 ==> ((b | mask) & other == other) == (b & other == other))
        by (bit_vector);
    assert(other & mask == 0 ==> ((b & !mask) & other == other) == (b & other == other))
        by (bit_vector);
}

/// Terminal color representation.
#[derive(Debug, Clone, Copy, PartialEq, Eq, Structural)]
pub enum Color {
    Default,
    Indexed(u8),
    Rgb(u8, u8, u8),
}

/// A single cell in the terminal grid.
#[derive(Debug, Clone, Copy, PartialEq, Eq, Structural)]
pub struct Cell {
    pub ch: char,
    pub fg: Color,
    pub bg: Color,
    pub attrs: CellAttrs,
}

impl Cell {
    /// A space in default colours without attributes.
    pub open spec fn blank() -> Cell {
        Cell { ch: ' ', fg: Color::Default, bg: Color::Default, attrs: CellAttrs::none() }
    }

    /// The cell shows nothing: a space or a NUL.
    pub open spec fn shows_nothing(self) -> bool {
        self.ch == ' ' || self.ch == '\0'
    }
}

impl Default for Cell {
    fn default() -> (r: Cell)
        ensures
            r == Cell::blank(),
    {
        Cell { ch: ' ', fg: Color::Default, bg: Color::Default, attrs: CellAttrs::empty() }
    }
}

/// Cursor visual style.
#[derive(Debug, Clone, Copy, PartialEq, Eq, Structural)]
pub enum CursorStyle {
    Block,
    Underline,
    Bar,
}

impl Default for CursorStyle {
    fn default() -> (r: CursorStyle)
        ensures
            r == CursorStyle::Block,
    {
        CursorStyle::Block
    }
}

/// Saved cursor state (DECSC/DECRC).
#[derive(Debug, Clone, Copy, PartialEq, Eq, Structural)]
pub struct SavedCursor {
    pub row: usize,
    pub col: usize,
    pub fg: Color,
    pub bg: Color,
    pub attrs: CellAttrs,
}

/// A text selection between two cells, both included, in reading order.
#[derive(Debug, Clone, Copy, PartialEq, Eq, Structural)]
pub struct Selection {
    /// Anchor point (where mouse-down occurred).
    pub start_row: usize,
    pub start_col: usize,
    /// Current extent (where mouse currently is).
    pub end_row: usize,
    pub end_col: usize,
}

/// The cell at `(r0, c0)` comes no later than the one at `(r1, c1)` in reading order.
pub open spec fn reading_le(r0: int, c0: int, r1: int, c1: int) -> bool {
    r0 < r1 || (r0 == r1 && c0 <= c1)
}

impl Selection {
    /// The endpoints, the earlier one in reading order first.
    pub open spec fn endpoints(self) -> (usize, usize, usize, usize) {
        if reading_le(
            self.start_row as int,
            self.start_col as int,
            self.end_row as int,
            self.end_col as int,
        ) {
            (self.start_row, self.start_col, self.end_row, self.end_col)
        } else {
            (self.end_row, self.end_col, self.start_row, self.start_col)
        }
    }

    /// The cell lies between the two endpoints in reading order.
    pub open spec fn covers(self, row: int, col: int) -> bool {
        let (r0, c0, r1, c1) = self.endpoints();
        reading_le(r0 as int, c0 as int, row, col) && reading_le(row, col, r1 as int, c1 as int)
    }

    /// Return (top_row, top_col, bottom_row, bottom_col) in normalized order.
    pub fn ordered(&self) -> (r: (usize, usize, usize, usize))
        ensures
            r == self.endpoints(),
            reading_le(r.0 as int, r.1 as int, r.2 as int, r.3 as int),
    {
        if self.start_row < self.end_row || (self.start_row == self.end_row && self.start_col
            <= self.end_col) {
            (self.start_row, self.start_col, self.end_row, self.end_col)
        } else {
            (self.end_row, self.end_col, self.start_row, self.start_col)
        }
    }

    /// Check if a given cell is within this selection.
    pub fn contains(&self, row: usize, col: usize) -> (r: bool)
        ensures
            r == self.covers(row as int, col as int),
    {
        let (r0, c0, r1, c1): (usize, usize, usize, usize) = self.ordered();
        if row < r0 || row > r1 {
            return false;
        }
        if row == r0 && row == r1 {
            return col >= c0 && col <= c1;
        }
        if row == r0 {
            return col >= c0;
        }
        if row == r1 {
            return col <= c1;
        }
        true
    }
}

/// Dragging a selection backwards selects the same cells as dragging it forwards.
pub proof fn law_selection_symmetric(s: Selection, row: int, col: int)
    ensures
        ({
            let t = Selection {
                start_row: s.end_row,
                start_col: s.end_col,
                end_row: s.start_row,
                end_col: s.start_col,
            };
            &&& t.endpoints() == s.endpoints()
            &&& t.covers(row, col) == s.covers(row, col)
        }),
{
}

/// A selection covers both of its endpoints.
pub proof fn law_selection_covers_endpoints(s: Selection)
    ensures
        s.covers(s.start_row as int, s.start_col as int),
        s.covers(s.end_row as int, s.end_col as int),
{
}

} // verus!
