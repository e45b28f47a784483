use vstd::prelude::*;
use crate::text::Cell;

verus! {

/// A display back-end: the cell-at-a-time contract an application can target
/// instead of the grid-plus-render pipeline. Implementations adapt these
/// calls onto a presentation surface of their own.
pub trait Backend {
    /// Sets the cell shown at the given coordinates. Coordinates outside the
    /// bounds of the display are ignored.
    fn set(&mut self, x: i32, y: i32, cell: &Cell);

    /// Updates the display: cells given to `set` since the previous update
    /// become visible.
    fn update(&mut self);

    /// The width of the display, in cells.
    fn width(&self) -> u32;

    /// The height of the display, in cells.
    fn height(&self) -> u32;
}

} // verus!
