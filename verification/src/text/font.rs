use vstd::prelude::*;
use vstd::arithmetic::div_mod::lemma_fundamental_div_mod;
use vstd::arithmetic::div_mod::lemma_mod_division_less_than_divisor;

verus! {

/// A single 8x8 monochrome glyph: 8 bytes, one per row top to bottom, bit 7
/// of each byte the leftmost pixel of its row.
#[derive(Debug, Clone, Copy, PartialEq, Eq)]
pub struct Glyph([u8; 8]);

impl View for Glyph {
    type V = Seq<u8>;

    closed spec fn view(&self) -> Seq<u8> {
        self.0@
    }
}

impl Glyph {
    /// Whether the pixel at column `px`, row `py` is on: bit `7 - px` of row
    /// byte `py` is set.
    pub open spec fn is_on(self, px: int, py: int) -> bool
        recommends
            0 <= px < 8,
            0 <= py < 8,
    {
        (self@[py] >> ((7 - px) as u8)) & 1u8 == 1u8
    }

    /// Creates a glyph from its eight row bytes.
    pub fn new(rows: [u8; 8]) -> (g: Glyph)
        ensures
            g@ == rows@,
    {
        Glyph(rows)
    }

    /// Returns a fresh cursor over this glyph's on pixels, starting at the
    /// top-left bit.
    pub fn pixels(&self) -> (p: Pixels<'_>)
        ensures
            p.wf(),
            p.spec_glyph() == *self,
            p.cursor() == 0,
    {
        Pixels { glyph: self, row: 0, col: 0 }
    }

    /// The width of a glyph, in pixels.
    pub fn width(&self) -> (w: u8)
        ensures
            w == 8,
    {
        8
    }

    /// The height of a glyph, in pixels.
    pub fn height(&self) -> (h: u8)
        ensures
            h == 8,
    {
        8
    }
}

impl Default for Glyph {
    /// The default glyph is empty: every row byte is zero, no pixel is on.
    fn default() -> (g: Glyph)
        ensures
            g@.len() == 8,
            forall|i: int| 0 <= i < 8 ==> g@[i] == 0u8,
    {
        Glyph([0u8, 0u8, 0u8, 0u8, 0u8, 0u8, 0u8, 0u8])
    }
}

/// Whether bit `i` of the glyph, counted in row-major order over the 64
/// pixels, is on.
pub open spec fn on_at(g: Glyph, i: int) -> bool
    recommends
        0 <= i < 64,
{
    g.is_on(i % 8, i / 8)
}

/// The row-major bit position of a `(column, row)` pair.
pub open spec fn bit_pos(p: (u8, u8)) -> int {
    p.1 * 8 + p.0
}

/// The on pixels of a glyph at or beyond row-major bit position `c`, as
/// `(column, row)` pairs in the order a pixel cursor yields them.
pub open spec fn pixels_from(g: Glyph, c: int) -> Seq<(u8, u8)>
    decreases 64 - c,
{
    if c < 0 || 64 <= c {
        Seq::empty()
    } else if on_at(g, c) {
        seq![((c % 8) as u8, (c / 8) as u8)] + pixels_from(g, c + 1)
    } else {
        pixels_from(g, c + 1)
    }
}

/// The pixel stream is within bounds and strictly ascending: every entry
/// lies inside the 8x8 glyph, is an on pixel at or beyond the position the
/// stream starts from, and later entries come at strictly larger row-major
/// positions — rows top to bottom, columns left to right within a row — so
/// no coordinate pair appears twice.
pub proof fn lemma_pixels_from_ordered(g: Glyph, c: int)
    ensures
        forall|k: int|
            0 <= k < pixels_from(g, c).len() ==> {
                let p = #[trigger] pixels_from(g, c)[k];
                &&& p.0 < 8
                &&& p.1 < 8
                &&& c <= bit_pos(p) < 64
                &&& on_at(g, bit_pos(p))
            },
        forall|k1: int, k2: int|
            0 <= k1 < k2 < pixels_from(g, c).len() ==> bit_pos(#[trigger] pixels_from(g, c)[k1])
                < bit_pos(#[trigger] pixels_from(g, c)[k2]),
    decreases 64 - c,
{
    if c < 0 || 64 <= c {
    } else {
        lemma_pixels_from_ordered(g, c + 1);
        if on_at(g, c) {
            lemma_fundamental_div_mod(c, 8);
            lemma_mod_division_less_than_divisor(c, 8);
            let head = ((c % 8) as u8, (c / 8) as u8);
            assert(bit_pos(head) == c);
            assert(pixels_from(g, c) == seq![head] + pixels_from(g, c + 1));
            assert forall|k: int| 0 <= k < pixels_from(g, c).len() implies {
                let p = #[trigger] pixels_from(g, c)[k];
                &&& p.0 < 8
                &&& p.1 < 8
                &&& c <= bit_pos(p) < 64
                &&& on_at(g, bit_pos(p))
            } by {
                if k > 0 {
                    assert(pixels_from(g, c)[k] == pixels_from(g, c + 1)[k - 1]);
                }
            }
        }
    }
}

/// One cursor step matches the stream: if `i` is the first on bit at or
/// beyond position `c`, the stream from `c` is the pixel at `i` followed by
/// the stream from `i + 1` — so a cursor at `c`, whose next yield is the
/// pixel at `i`, consumes exactly the head of the stream.
pub proof fn lemma_pixels_from_step(g: Glyph, c: int, i: int)
    requires
        0 <= c <= i < 64,
        on_at(g, i),
        forall|j: int| c <= j < i ==> !on_at(g, j),
    ensures
        pixels_from(g, c) == seq![((i % 8) as u8, (i / 8) as u8)] + pixels_from(g, i + 1),
    decreases i - c,
{
    if c < i {
        lemma_pixels_from_step(g, c + 1, i);
    }
}

/// A cursor that answers `None` stands past every on pixel: if no on bit
/// remains at or beyond position `c`, the stream from `c` is empty.
pub proof fn lemma_pixels_from_end(g: Glyph, c: int)
    requires
        0 <= c <= 64,
        forall|j: int| c <= j < 64 ==> !on_at(g, j),
    ensures
        pixels_from(g, c) == Seq::<(u8, u8)>::empty(),
    decreases 64 - c,
{
    if c < 64 {
        lemma_pixels_from_end(g, c + 1);
    }
}

/// A fixed mapping from every single-byte character index to its glyph.
#[derive(Debug, Clone)]
pub struct Font {
    glyphs: [Glyph; 256],
}

impl View for Font {
    type V = Seq<Glyph>;

    closed spec fn view(&self) -> Seq<Glyph> {
        self.glyphs@
    }
}

impl Font {
    /// Creates a font from exactly 256 glyphs, indexed by byte value.
    pub fn new(glyphs: [Glyph; 256]) -> (f: Font)
        ensures
            f@ == glyphs@,
            f@.len() == 256,
    {
        Font { glyphs }
    }

    /// Total, panic-free lookup: every byte indexes a glyph of the table.
    pub fn glyph(&self, index: u8) -> (g: Glyph)
        ensures
            g == self@[index as int],
    {
        self.glyphs[index as usize]
    }
}

/// A cursor over the on pixels of a glyph, yielding `(column, row)` pairs
/// column-ascending within each row, rows top to bottom. Each call to `next`
/// advances past the pair it yields; a fresh cursor restarts from the top.
#[derive(Debug, Clone)]
pub struct Pixels<'a> {
    glyph: &'a Glyph,
    row: u8,
    col: u8,
}

impl<'a> Pixels<'a> {
    /// The glyph this cursor walks.
    pub closed spec fn spec_glyph(self) -> Glyph {
        *self.glyph
    }

    /// The row-major bit position the cursor stands at, from 0 (nothing
    /// yielded yet) to 64 (done).
    pub closed spec fn cursor(self) -> int {
        self.row * 8 + self.col
    }

    /// Cursor well-formedness: row and column never run past the glyph.
    pub closed spec fn wf(self) -> bool {
        &&& self.row <= 8
        &&& self.col <= 8
        &&& (self.row == 8 ==> self.col == 0)
    }

    /// Yields the next on pixel as `(column, row)`: the one at the smallest
    /// row-major bit position not yet passed. Returns `None` once no on
    /// pixel remains.
    pub fn next(&mut self) -> (r: Option<(u8, u8)>)
        requires
            old(self).wf(),
        ensures
            final(self).wf(),
            final(self).spec_glyph() == old(self).spec_glyph(),
            match r {
                Some(p) => {
                    &&& p.0 < 8
                    &&& p.1 < 8
                    &&& old(self).cursor() <= p.1 * 8 + p.0 < 64
                    &&& on_at(old(self).spec_glyph(), p.1 * 8 + p.0)
                    &&& forall|j: int|
                        old(self).cursor() <= j < p.1 * 8 + p.0 ==> !on_at(
                            old(self).spec_glyph(),
                            j,
                        )
                    &&& final(self).cursor() == p.1 * 8 + p.0 + 1
                },
                None => {
                    &&& forall|j: int|
                        old(self).cursor() <= j < 64 ==> !on_at(old(self).spec_glyph(), j)
                    &&& final(self).cursor() == 64
                },
            },
    {
        while self.row < 8
            invariant
                self.wf(),
                self.glyph == old(self).glyph,
                old(self).cursor() <= self.cursor(),
                forall|j: int|
                    old(self).cursor() <= j < self.cursor() ==> !on_at(old(self).spec_glyph(), j),
            decreases 8 - self.row, 8 - self.col,
        {
            let row_data = self.glyph.0[self.row as usize];
            if self.col < 8 {
                let bit = (row_data >> (7 - self.col)) & 1;
                assert(bit == 1 <==> on_at(*self.glyph, self.row * 8 + self.col));
                if bit == 1 {
                    let pixel = (self.col, self.row);
                    self.col = self.col + 1;
                    return Some(pixel);
                }
                self.col = self.col + 1;
            } else {
                self.row = self.row + 1;
                self.col = 0;
            }
        }
        None
    }
}

} // verus!
