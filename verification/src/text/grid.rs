use vstd::prelude::*;
use vstd::arithmetic::div_mod::lemma_fundamental_div_mod;
use vstd::arithmetic::div_mod::lemma_fundamental_div_mod_converse;
use vstd::arithmetic::mul::lemma_mul_inequality;
use crate::text::Cell;
use crate::text::EMPTY_INDEX;

verus! {

/// A fixed-size two-dimensional grid of cells, stored row-major. The total
/// cell count is the compile-time parameter `LENGTH`; the width is declared
/// at construction, must divide `LENGTH` evenly, and the height is derived.
#[derive(Debug, Clone)]
pub struct Grid<const LENGTH: usize> {
    cells: [Cell; LENGTH],
    width: usize,
}

/// A row-major coordinate within a well-formed grid stays inside the cell
/// storage: `y * w + x < len` whenever `x < w` and `y < len / w`.
pub proof fn lemma_row_major_index(w: int, len: int, x: int, y: int)
    requires
        1 <= w,
        0 <= len,
        len % w == 0,
        0 <= x < w,
        0 <= y < len / w,
    ensures
        0 <= y * w + x < len,
{
    lemma_fundamental_div_mod(len, w);
    assert(len == w * (len / w));
    lemma_mul_inequality(y + 1, len / w, w);
    assert((y + 1) * w == y * w + w) by (nonlinear_arith);
    assert(len / w * w == w * (len / w)) by (nonlinear_arith);
    assert(y * w >= 0) by (nonlinear_arith)
        requires
            y >= 0 && w >= 0,
    ;
}

/// Row-major coordinates are unique: two in-width coordinate pairs with the
/// same linear index are the same pair.
pub proof fn lemma_row_major_unique(w: int, x1: int, y1: int, x2: int, y2: int)
    requires
        1 <= w,
        0 <= x1 < w,
        0 <= x2 < w,
        0 <= y1,
        0 <= y2,
        y1 * w + x1 == y2 * w + x2,
    ensures
        x1 == x2,
        y1 == y2,
{
    lemma_fundamental_div_mod_converse(y1 * w + x1, w, y1, x1);
    lemma_fundamental_div_mod_converse(y2 * w + x2, w, y2, x2);
}

impl<const LENGTH: usize> View for Grid<LENGTH> {
    type V = Seq<Cell>;

    closed spec fn view(&self) -> Seq<Cell> {
        self.cells@
    }
}

impl<const LENGTH: usize> Grid<LENGTH> {
    /// The declared width, in cells.
    pub closed spec fn spec_width(self) -> int {
        self.width as int
    }

    /// The derived height, in cells.
    pub open spec fn spec_height(self) -> int {
        LENGTH as int / self.spec_width()
    }

    /// Structural invariant: the declared width is positive and divides the
    /// total cell count evenly.
    pub open spec fn wf(self) -> bool {
        &&& 1 <= self.spec_width()
        &&& LENGTH as int % self.spec_width() == 0
    }

    /// The cell shown at column `x`, row `y`.
    pub open spec fn spec_get(self, x: int, y: int) -> Cell
        recommends
            0 <= x < self.spec_width(),
            0 <= y < self.spec_height(),
    {
        self@[y * self.spec_width() + x]
    }

    /// Creates a grid of empty (space) cells with the given width; the
    /// height is `LENGTH / width`.
    pub fn new(width: usize) -> (g: Grid<LENGTH>)
        requires
            1 <= width,
            LENGTH as int % width as int == 0,
        ensures
            g.wf(),
            g.spec_width() == width,
            g@.len() == LENGTH,
            forall|i: int| 0 <= i < LENGTH ==> #[trigger] g@[i]@ == EMPTY_INDEX,
    {
        let empty = Cell::empty();
        Grid { cells: [empty; LENGTH], width }
    }

    /// Creates a grid over the given cells with the given width; the height
    /// is `LENGTH / width`.
    pub fn with_cells(cells: [Cell; LENGTH], width: usize) -> (g: Grid<LENGTH>)
        requires
            1 <= width,
            LENGTH as int % width as int == 0,
        ensures
            g.wf(),
            g.spec_width() == width,
            g@ == cells@,
    {
        Grid { cells, width }
    }

    /// The declared width, in cells.
    pub fn width(&self) -> (w: usize)
        ensures
            w == self.spec_width(),
    {
        self.width
    }

    /// The derived height, in cells: the total cell count divided by the
    /// width.
    pub fn height(&self) -> (h: usize)
        requires
            self.wf(),
        ensures
            h == self.spec_height(),
    {
        LENGTH / self.width
    }

    /// The cell at the given coordinates; `None` exactly when the
    /// coordinates lie outside the grid.
    pub fn get(&self, x: usize, y: usize) -> (r: Option<&Cell>)
        requires
            self.wf(),
        ensures
            match r {
                Some(c) => x < self.spec_width() && y < self.spec_height() && *c == self.spec_get(
                    x as int,
                    y as int,
                ),
                None => !(x < self.spec_width() && y < self.spec_height()),
            },
    {
        if x < self.width && y < self.height() {
            proof {
                lemma_row_major_index(self.width as int, LENGTH as int, x as int, y as int);
            }
            Some(&self.cells[y * self.width + x])
        } else {
            None
        }
    }

    /// A mutable borrow of the cell at the given coordinates; `None` exactly
    /// when the coordinates lie outside the grid, leaving the grid unchanged.
    pub fn get_mut(&mut self, x: usize, y: usize) -> (r: Option<&mut Cell>)
        requires
            old(self).wf(),
        ensures
            match r {
                Some(c) => {
                    &&& x < old(self).spec_width() && y < old(self).spec_height()
                    &&& *c == old(self).spec_get(x as int, y as int)
                    &&& final(self)@ == old(self)@.update(
                        y * old(self).spec_width() + x,
                        *final(c),
                    )
                    &&& final(self).spec_width() == old(self).spec_width()
                    &&& final(self).wf()
                },
                None => {
                    &&& !(x < old(self).spec_width() && y < old(self).spec_height())
                    &&& *final(self) == *old(self)
                },
            },
    {
        if x < self.width && y < self.height() {
            proof {
                lemma_row_major_index(self.width as int, LENGTH as int, x as int, y as int);
            }
            Some(&mut self.cells[y * self.width + x])
        } else {
            None
        }
    }

    /// All cells, by value, in row-major order.
    pub fn iter(&self) -> (v: Vec<Cell>)
        ensures
            v@ == self@,
    {
        let mut v: Vec<Cell> = Vec::new();
        let mut i: usize = 0;
        while i < LENGTH
            invariant
                i <= LENGTH,
                v@ == self@.subrange(0, i as int),
            decreases LENGTH - i,
        {
            v.push(self.cells[i]);
            assert(v@ =~= self@.subrange(0, i as int + 1));
            i = i + 1;
        }
        assert(v@ =~= self@);
        v
    }

    /// The rows, top to bottom, each exactly `width` cells in row-major
    /// order.
    pub fn rows(&self) -> (v: Vec<Vec<Cell>>)
        requires
            self.wf(),
        ensures
            v@.len() == self.spec_height(),
            forall|y: int|
                0 <= y < self.spec_height() ==> #[trigger] v@[y]@ == self@.subrange(
                    y * self.spec_width(),
                    (y + 1) * self.spec_width(),
                ),
    {
        let height = self.height();
        let mut v: Vec<Vec<Cell>> = Vec::new();
        let mut y: usize = 0;
        while y < height
            invariant
                self.wf(),
                height == self.spec_height(),
                y <= height,
                v@.len() == y,
                forall|r: int|
                    0 <= r < y ==> #[trigger] v@[r]@ == self@.subrange(
                        r * self.spec_width(),
                        (r + 1) * self.spec_width(),
                    ),
            decreases height - y,
        {
            let mut row: Vec<Cell> = Vec::new();
            proof {
                lemma_row_major_index(self.width as int, LENGTH as int, 0, y as int);
                assert(row@ =~= self@.subrange(
                    y as int * self.spec_width(),
                    y as int * self.spec_width(),
                ));
            }
            let mut x: usize = 0;
            while x < self.width
                invariant
                    self.wf(),
                    x <= self.spec_width(),
                    y < self.spec_height(),
                    row@ == self@.subrange(
                        y as int * self.spec_width(),
                        y as int * self.spec_width() + x as int,
                    ),
                decreases self.spec_width() - x,
            {
                proof {
                    lemma_row_major_index(self.width as int, LENGTH as int, x as int, y as int);
                }
                row.push(self.cells[y * self.width + x]);
                assert(row@ =~= self@.subrange(
                    y as int * self.spec_width(),
                    y as int * self.spec_width() + (x + 1) as int,
                ));
                x = x + 1;
            }
            assert(row@ == self@.subrange(
                y as int * self.spec_width(),
                (y as int + 1) * self.spec_width(),
            )) by {
                assert(y as int * self.spec_width() + self.spec_width() == (y as int + 1)
                    * self.spec_width()) by (nonlinear_arith);
            };
            v.push(row);
            y = y + 1;
        }
        v
    }
}

/// Writing a cell and reading it back at the same in-bounds coordinate
/// yields the written cell: `get_mut`'s contract pins the grid after the
/// write to `old@.update(y * w + x, c)`, and at that view `spec_get` (what
/// `get` returns there) answers `c`.
pub proof fn lemma_write_then_read<const LENGTH: usize>(
    before: Grid<LENGTH>,
    after: Grid<LENGTH>,
    x: int,
    y: int,
    c: Cell,
)
    requires
        before.wf(),
        0 <= x < before.spec_width(),
        0 <= y < before.spec_height(),
        after.spec_width() == before.spec_width(),
        after@ == before@.update(y * before.spec_width() + x, c),
    ensures
        after.spec_get(x, y) == c,
{
    lemma_row_major_index(before.spec_width(), LENGTH as int, x, y);
}

} // verus!
