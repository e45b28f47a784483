use vstd::prelude::*;

verus! {

/// A single character slot in a grid: the byte indexing the glyph its
/// position displays, in a codepage-437-style single-byte character set.
#[derive(Debug, Clone, Copy, PartialEq, Eq, Structural)]
pub struct Cell(u8);

impl View for Cell {
    type V = u8;

    closed spec fn view(&self) -> u8 {
        self.0
    }
}

/// The glyph index of the empty cell: the space character.
pub const EMPTY_INDEX: u8 = 0x20;

impl Cell {
    /// Creates a cell holding the given glyph index.
    pub fn new(glyph: u8) -> (c: Cell)
        ensures
            c@ == glyph,
    {
        Cell(glyph)
    }

    /// Returns the glyph index this cell holds.
    pub fn glyph(self) -> (g: u8)
        ensures
            g == self@,
    {
        self.0
    }

    /// The empty cell: it shows the space character.
    pub fn empty() -> (c: Cell)
        ensures
            c@ == EMPTY_INDEX,
    {
        Cell(EMPTY_INDEX)
    }
}

impl Default for Cell {
    /// The default cell is the empty (space) cell.
    fn default() -> (c: Cell)
        ensures
            c@ == EMPTY_INDEX,
    {
        Cell(EMPTY_INDEX)
    }
}

impl From<u8> for Cell {
    /// A bare byte converts to the cell holding it as glyph index.
    fn from(glyph: u8) -> (c: Cell)
        ensures
            c@ == glyph,
    {
        Cell(glyph)
    }
}

impl vstd::std_specs::convert::FromSpecImpl<u8> for Cell {
    open spec fn obeys_from_spec() -> bool {
        true
    }

    closed spec fn from_spec(glyph: u8) -> Cell {
        Cell(glyph)
    }
}

} // verus!
