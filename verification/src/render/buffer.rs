use vstd::prelude::*;
use vstd::arithmetic::div_mod::lemma_fundamental_div_mod_converse;
use crate::render::Color;
use crate::render::color::BLACK_ARGB;
use crate::render::color::lemma_color_eq;
use crate::render::color::WHITE_ARGB;
use crate::text::Glyph;
use crate::text::lemma_row_major_index;
use crate::text::lemma_row_major_unique;
use crate::text::on_at;

verus! {

/// The pixel at column `tx`, row `ty` of a row-major pixel sequence of the
/// given width.
pub open spec fn pixel_at(s: Seq<Color>, w: int, tx: int, ty: int) -> Color
    recommends
        1 <= w,
        0 <= tx < w,
        0 <= ty,
        ty * w + tx < s.len(),
{
    s[ty * w + tx]
}

/// Whether the scale-by-scale block of glyph pixel `(px, py)`, blitted with
/// its glyph's top-left corner at `(x, y)`, contains the target `(tx, ty)`.
pub open spec fn block_covers(
    x: int,
    y: int,
    scale: int,
    px: int,
    py: int,
    tx: int,
    ty: int,
) -> bool {
    &&& x + px * scale <= tx < x + px * scale + scale
    &&& y + py * scale <= ty < y + py * scale + scale
}

/// Whether blitting the glyph at `(x, y)` with the given scale paints the
/// target pixel `(tx, ty)`: some on pixel of the glyph covers it with its
/// scale-by-scale block.
pub open spec fn covers(g: Glyph, x: int, y: int, scale: int, tx: int, ty: int) -> bool {
    exists|px: int, py: int|
        0 <= px < 8 && 0 <= py < 8 && #[trigger] g.is_on(px, py) && block_covers(
            x,
            y,
            scale,
            px,
            py,
            tx,
            ty,
        )
}

/// `covers`, restricted to the glyph's on pixels that lie before row-major
/// bit position `bound`.
spec fn covers_before(g: Glyph, x: int, y: int, scale: int, bound: int, tx: int, ty: int) -> bool {
    exists|px: int, py: int|
        0 <= px < 8 && 0 <= py < 8 && py * 8 + px < bound && #[trigger] g.is_on(px, py)
            && block_covers(x, y, scale, px, py, tx, ty)
}

/// A glyph coordinate pair maps to its row-major bit position and back.
proof fn lemma_bit_index(px: int, py: int)
    requires
        0 <= px < 8,
        0 <= py < 8,
    ensures
        0 <= py * 8 + px < 64,
        (py * 8 + px) % 8 == px,
        (py * 8 + px) / 8 == py,
{
    lemma_fundamental_div_mod_converse(py * 8 + px, 8, py, px);
}

/// Extending the processed-bit bound past one more on pixel `(px, py)` — the
/// first on pixel at or beyond the old bound — adds exactly that pixel's
/// block to the covered region.
proof fn lemma_covers_step(
    g: Glyph,
    x: int,
    y: int,
    scale: int,
    c: int,
    px: int,
    py: int,
    tx: int,
    ty: int,
)
    requires
        0 <= px < 8,
        0 <= py < 8,
        0 <= c <= py * 8 + px,
        g.is_on(px, py),
        forall|j: int| c <= j < py * 8 + px ==> !on_at(g, j),
    ensures
        covers_before(g, x, y, scale, py * 8 + px + 1, tx, ty) <==> (covers_before(
            g,
            x,
            y,
            scale,
            c,
            tx,
            ty,
        ) || block_covers(x, y, scale, px, py, tx, ty)),
{
    let i = py * 8 + px;
    lemma_bit_index(px, py);
    if covers_before(g, x, y, scale, i + 1, tx, ty) {
        let (qx, qy): (int, int) = choose|qx: int, qy: int|
            0 <= qx < 8 && 0 <= qy < 8 && qy * 8 + qx < i + 1 && #[trigger] g.is_on(qx, qy)
                && block_covers(x, y, scale, qx, qy, tx, ty);
        let j = qy * 8 + qx;
        lemma_bit_index(qx, qy);
        if j < c {
            assert(covers_before(g, x, y, scale, c, tx, ty));
        } else if j < i {
            assert(on_at(g, j));
            assert(false);
        } else {
            lemma_row_major_unique(8, qx, qy, px, py);
            assert(block_covers(x, y, scale, px, py, tx, ty));
        }
    }
    if covers_before(g, x, y, scale, c, tx, ty) {
        let (qx, qy): (int, int) = choose|qx: int, qy: int|
            0 <= qx < 8 && 0 <= qy < 8 && qy * 8 + qx < c && #[trigger] g.is_on(qx, qy)
                && block_covers(x, y, scale, qx, qy, tx, ty);
        assert(qy * 8 + qx < i + 1);
        assert(covers_before(g, x, y, scale, i + 1, tx, ty));
    }
    if block_covers(x, y, scale, px, py, tx, ty) {
        assert(covers_before(g, x, y, scale, i + 1, tx, ty));
    }
}

/// Once no on pixel remains at or beyond the processed-bit bound, the
/// restricted covered region is the full one.
proof fn lemma_covers_done(g: Glyph, x: int, y: int, scale: int, c: int, tx: int, ty: int)
    requires
        0 <= c <= 64,
        forall|j: int| c <= j < 64 ==> !on_at(g, j),
    ensures
        covers(g, x, y, scale, tx, ty) <==> covers_before(g, x, y, scale, c, tx, ty),
{
    if covers(g, x, y, scale, tx, ty) {
        let (qx, qy): (int, int) = choose|qx: int, qy: int|
            0 <= qx < 8 && 0 <= qy < 8 && #[trigger] g.is_on(qx, qy) && block_covers(
                x,
                y,
                scale,
                qx,
                qy,
                tx,
                ty,
            );
        let j = qy * 8 + qx;
        lemma_bit_index(qx, qy);
        if j >= c {
            assert(on_at(g, j));
            assert(false);
        }
        assert(covers_before(g, x, y, scale, c, tx, ty));
    }
    if covers_before(g, x, y, scale, c, tx, ty) {
        let (qx, qy): (int, int) = choose|qx: int, qy: int|
            0 <= qx < 8 && 0 <= qy < 8 && qy * 8 + qx < c && #[trigger] g.is_on(qx, qy)
                && block_covers(x, y, scale, qx, qy, tx, ty);
        assert(covers(g, x, y, scale, tx, ty));
    }
}

/// A pixel buffer a frame is rendered into: a linear, row-major pixel array
/// with a declared width; the height is derived from the pixel count.
#[derive(Debug)]
pub struct Buffer {
    pixels: Vec<Color>,
    width: usize,
}

impl View for Buffer {
    type V = Seq<Color>;

    closed spec fn view(&self) -> Seq<Color> {
        self.pixels@
    }
}

impl Buffer {
    /// The declared width, in pixels.
    pub closed spec fn spec_width(self) -> int {
        self.width as int
    }

    /// The derived height, in pixels.
    pub open spec fn spec_height(self) -> int {
        self@.len() as int / self.spec_width()
    }

    /// Structural invariant: the declared width is positive and divides the
    /// pixel count evenly.
    pub open spec fn wf(self) -> bool {
        &&& 1 <= self.spec_width()
        &&& self@.len() as int % self.spec_width() == 0
    }

    /// Wraps packed 32-bit ARGB pixel values as a buffer of the given width.
    /// Each pixel keeps its packed value bit for bit.
    pub fn from_argb(pixels: Vec<u32>, width: usize) -> (b: Buffer)
        requires
            1 <= width,
            pixels@.len() as int % width as int == 0,
        ensures
            b.wf(),
            b.spec_width() == width,
            b@.len() == pixels@.len(),
            forall|i: int| 0 <= i < pixels@.len() ==> #[trigger] b@[i]@ == pixels@[i],
    {
        let mut colors: Vec<Color> = Vec::new();
        let mut i: usize = 0;
        let n = pixels.len();
        while i < n
            invariant
                i <= n,
                n == pixels@.len(),
                colors@.len() == i,
                forall|j: int| 0 <= j < i ==> #[trigger] colors@[j]@ == pixels@[j],
            decreases n - i,
        {
            colors.push(Color::new(pixels[i]));
            i = i + 1;
        }
        Buffer { pixels: colors, width }
    }

    /// The declared width, in pixels.
    pub fn width(&self) -> (w: usize)
        ensures
            w == self.spec_width(),
    {
        self.width
    }

    /// The derived height, in pixels: the pixel count divided by the width.
    pub fn height(&self) -> (h: usize)
        requires
            self.wf(),
        ensures
            h == self.spec_height(),
    {
        self.pixels.len() / self.width
    }

    /// The pixel at the given linear index.
    pub fn pixel(&self, index: usize) -> (c: Color)
        requires
            index < self@.len(),
        ensures
            c == self@[index as int],
    {
        self.pixels[index]
    }

    /// Writes the pixel at the given linear index.
    pub fn set_pixel(&mut self, index: usize, color: Color)
        requires
            index < old(self)@.len(),
        ensures
            final(self)@ == old(self)@.update(index as int, color),
            final(self).spec_width() == old(self).spec_width(),
    {
        self.pixels[index] = color;
    }

    /// Sets every pixel to opaque black.
    pub fn clear(&mut self)
        ensures
            final(self)@.len() == old(self)@.len(),
            final(self).spec_width() == old(self).spec_width(),
            forall|i: int| 0 <= i < final(self)@.len() ==> #[trigger] final(self)@[i]@ == BLACK_ARGB,
    {
        let n = self.pixels.len();
        let black = Color::black();
        let mut i: usize = 0;
        while i < n
            invariant
                i <= n,
                n == self@.len(),
                black@ == BLACK_ARGB,
                self.spec_width() == old(self).spec_width(),
                forall|j: int| 0 <= j < i ==> #[trigger] self@[j]@ == BLACK_ARGB,
            decreases n - i,
        {
            self.pixels[i] = black;
            i = i + 1;
        }
    }

    /// Blits a glyph: for every on pixel at glyph coordinate `(px, py)`,
    /// paints a scale-by-scale block of opaque white whose top-left corner
    /// is at buffer coordinate `(x + px * scale, y + py * scale)`. Every
    /// target pixel falling outside the buffer is silently dropped; every
    /// pixel no block covers is left unchanged.
    #[verifier::loop_isolation(false)]
    pub fn draw_glyph(&mut self, glyph: &Glyph, x: usize, y: usize, scale: usize)
        requires
            old(self).wf(),
            x + 8 * scale <= usize::MAX,
            y + 8 * scale <= usize::MAX,
        ensures
            final(self).wf(),
            final(self)@.len() == old(self)@.len(),
            final(self).spec_width() == old(self).spec_width(),
            forall|tx: int, ty: int|
                0 <= tx < old(self).spec_width() && 0 <= ty < old(self).spec_height() ==> (
                #[trigger] pixel_at(final(self)@, old(self).spec_width(), tx, ty))@ == (
                if covers(*glyph, x as int, y as int, scale as int, tx, ty) {
                    WHITE_ARGB
                } else {
                    pixel_at(old(self)@, old(self).spec_width(), tx, ty)@
                }),
    {
        let w = self.width;
        let h = self.height();
        let len = self.pixels.len();
        let white = Color::white();
        let ghost g = *glyph;
        let mut it = glyph.pixels();
        let mut done = false;
        let ghost mut live: int = 1;
        while !done
            invariant
                live == (if done {
                    0int
                } else {
                    1int
                }),
                it.wf(),
                it.spec_glyph() == g,
                0 <= it.cursor() <= 64,
                self.wf(),
                self@.len() == old(self)@.len(),
                self.spec_width() == old(self).spec_width(),
                !done ==> forall|tx: int, ty: int|
                    0 <= tx < w && 0 <= ty < old(self).spec_height() ==> (#[trigger] pixel_at(
                        self@,
                        w as int,
                        tx,
                        ty,
                    ))@ == (if covers_before(
                        g,
                        x as int,
                        y as int,
                        scale as int,
                        it.cursor(),
                        tx,
                        ty,
                    ) {
                        WHITE_ARGB
                    } else {
                        pixel_at(old(self)@, w as int, tx, ty)@
                    }),
                done ==> forall|tx: int, ty: int|
                    0 <= tx < w && 0 <= ty < old(self).spec_height() ==> (#[trigger] pixel_at(
                        self@,
                        w as int,
                        tx,
                        ty,
                    ))@ == (if covers(g, x as int, y as int, scale as int, tx, ty) {
                        WHITE_ARGB
                    } else {
                        pixel_at(old(self)@, w as int, tx, ty)@
                    }),
            decreases live, 64 - it.cursor(),
        {
            let ghost c = it.cursor();
            match it.next() {
                None => {
                    proof {
                        assert forall|tx: int, ty: int|
                            0 <= tx < w && 0 <= ty < old(self).spec_height() implies (
                        #[trigger] pixel_at(self@, w as int, tx, ty))@ == (if covers(
                            g,
                            x as int,
                            y as int,
                            scale as int,
                            tx,
                            ty,
                        ) {
                            WHITE_ARGB
                        } else {
                            pixel_at(old(self)@, w as int, tx, ty)@
                        }) by {
                            lemma_covers_done(g, x as int, y as int, scale as int, c, tx, ty);
                        }
                    }
                    done = true;
                    proof {
                        live = 0;
                    }
                },
                Some(p) => {
                    let px = p.0;
                    let py = p.1;
                    proof {
                        assert((px as int) * (scale as int) <= 7 * (scale as int))
                            by (nonlinear_arith)
                            requires
                                px < 8,
                                0 <= scale,
                        ;
                        assert((py as int) * (scale as int) <= 7 * (scale as int))
                            by (nonlinear_arith)
                            requires
                                py < 8,
                                0 <= scale,
                        ;
                    }
                    let dx = x + (px as usize) * scale;
                    let dy = y + (py as usize) * scale;
                    let ghost mid = self@;
                    let mut sy: usize = 0;
                    while sy < scale
                        invariant
                            sy <= scale,
                            self.wf(),
                            self@.len() == old(self)@.len(),
                            self.spec_width() == old(self).spec_width(),
                            forall|tx: int, ty: int|
                                0 <= tx < w && 0 <= ty < old(self).spec_height() ==> (
                                #[trigger] pixel_at(self@, w as int, tx, ty))@ == (if dx <= tx < dx
                                    + scale && dy <= ty < dy + sy {
                                    WHITE_ARGB
                                } else {
                                    pixel_at(mid, w as int, tx, ty)@
                                }),
                        decreases scale - sy,
                    {
                        let mut sx: usize = 0;
                        while sx < scale
                            invariant
                                sx <= scale,
                                sy < scale,
                                self.wf(),
                                self@.len() == old(self)@.len(),
                                self.spec_width() == old(self).spec_width(),
                                forall|tx: int, ty: int|
                                    0 <= tx < w && 0 <= ty < old(self).spec_height() ==> (
                                    #[trigger] pixel_at(self@, w as int, tx, ty))@ == (if (dx <= tx
                                        < dx + scale && dy <= ty < dy + sy) || (ty == dy + sy && dx
                                        <= tx < dx + sx) {
                                        WHITE_ARGB
                                    } else {
                                        pixel_at(mid, w as int, tx, ty)@
                                    }),
                            decreases scale - sx,
                        {
                            let tx = dx + sx;
                            let ty = dy + sy;
                            if tx < w && ty < h {
                                proof {
                                    lemma_row_major_index(w as int, len as int, tx as int, ty as int);
                                }
                                let ghost pre = self@;
                                let idx = ty * w + tx;
                                self.pixels[idx] = white;
                                proof {
                                    assert forall|ax: int, ay: int|
                                        0 <= ax < w && 0 <= ay < old(self).spec_height() implies (
                                    #[trigger] pixel_at(self@, w as int, ax, ay))@ == (if (dx <= ax
                                        < dx + scale && dy <= ay < dy + sy) || (ay == dy + sy && dx
                                        <= ax < dx + sx + 1) {
                                        WHITE_ARGB
                                    } else {
                                        pixel_at(mid, w as int, ax, ay)@
                                    }) by {
                                        lemma_row_major_index(w as int, len as int, ax, ay);
                                        // mentioned so the loop invariant instantiates at (ax, ay)
                                        let before = pixel_at(pre, w as int, ax, ay);
                                        if ay * (w as int) + ax == ty as int * (w as int)
                                            + tx as int {
                                            lemma_row_major_unique(
                                                w as int,
                                                ax,
                                                ay,
                                                tx as int,
                                                ty as int,
                                            );
                                        }
                                    }
                                }
                            }
                            sx = sx + 1;
                        }
                        sy = sy + 1;
                    }
                    proof {
                        assert forall|tx: int, ty: int|
                            0 <= tx < w && 0 <= ty < old(self).spec_height() implies (
                        #[trigger] pixel_at(self@, w as int, tx, ty))@ == (if covers_before(
                            g,
                            x as int,
                            y as int,
                            scale as int,
                            it.cursor(),
                            tx,
                            ty,
                        ) {
                            WHITE_ARGB
                        } else {
                            pixel_at(old(self)@, w as int, tx, ty)@
                        }) by {
                            lemma_covers_step(
                                g,
                                x as int,
                                y as int,
                                scale as int,
                                c,
                                px as int,
                                py as int,
                                tx,
                                ty,
                            );
                        }
                    }
                },
            }
        }
    }
}

/// Clearing is idempotent: the state `clear` leaves a buffer in — every pixel
/// opaque black, dimensions unchanged — is the same whether it is reached by
/// one clear or by a second clear on top of the first.
pub proof fn lemma_clear_idempotent(once: Seq<Color>, twice: Seq<Color>)
    requires
        once.len() == twice.len(),
        forall|i: int| 0 <= i < once.len() ==> #[trigger] once[i]@ == BLACK_ARGB,
        forall|i: int| 0 <= i < twice.len() ==> #[trigger] twice[i]@ == BLACK_ARGB,
    ensures
        once == twice,
{
    assert forall|i: int| 0 <= i < once.len() implies once[i] == twice[i] by {
        lemma_color_eq(once[i], twice[i]);
    }
    assert(once =~= twice);
}

} // verus!
