mod buffer;
mod color;

pub use buffer::Buffer;
pub use buffer::block_covers;
pub use buffer::covers;
pub use buffer::lemma_clear_idempotent;
pub use buffer::pixel_at;
pub use color::BLACK_ARGB;
pub use color::Color;
pub use color::WHITE_ARGB;
pub use color::lemma_color_eq;

use vstd::prelude::*;
use crate::text::Font;
use crate::text::Glyph;
use crate::text::Grid;
use crate::text::lemma_row_major_index;
use crate::text::lemma_row_major_unique;

verus! {

/// The glyph the cell at grid column `cx`, row `cy` selects from the font.
pub open spec fn glyph_at<const LENGTH: usize>(
    grid: Grid<LENGTH>,
    font: Font,
    cx: int,
    cy: int,
) -> Glyph
    recommends
        grid.wf(),
        0 <= cx < grid.spec_width(),
        0 <= cy < grid.spec_height(),
{
    font@[grid@[cy * grid.spec_width() + cx]@ as int]
}

/// Whether some grid cell's glyph, blitted at that cell's scaled pixel
/// origin, paints the target pixel `(tx, ty)`.
pub open spec fn grid_covers<const LENGTH: usize>(
    grid: Grid<LENGTH>,
    font: Font,
    scale: int,
    tx: int,
    ty: int,
) -> bool {
    exists|cx: int, cy: int|
        0 <= cx < grid.spec_width() && 0 <= cy < grid.spec_height() && covers(
            #[trigger] glyph_at(grid, font, cx, cy),
            cx * 8 * scale,
            cy * 8 * scale,
            scale,
            tx,
            ty,
        )
}

/// `grid_covers`, restricted to the cells before row-major cell index
/// `bound`.
spec fn grid_covers_before<const LENGTH: usize>(
    grid: Grid<LENGTH>,
    font: Font,
    scale: int,
    bound: int,
    tx: int,
    ty: int,
) -> bool {
    exists|cx: int, cy: int|
        0 <= cx < grid.spec_width() && 0 <= cy < grid.spec_height() && cy * grid.spec_width() + cx
            < bound && covers(
            #[trigger] glyph_at(grid, font, cx, cy),
            cx * 8 * scale,
            cy * 8 * scale,
            scale,
            tx,
            ty,
        )
}

/// Before any cell is processed, nothing is covered.
proof fn lemma_grid_covers_empty<const LENGTH: usize>(
    grid: Grid<LENGTH>,
    font: Font,
    scale: int,
    tx: int,
    ty: int,
)
    requires
        grid.wf(),
    ensures
        !grid_covers_before(grid, font, scale, 0, tx, ty),
{
    let gw = grid.spec_width();
    if grid_covers_before(grid, font, scale, 0, tx, ty) {
        let (qx, qy): (int, int) = choose|qx: int, qy: int|
            0 <= qx < gw && 0 <= qy < grid.spec_height() && qy * gw + qx < 0 && covers(
                #[trigger] glyph_at(grid, font, qx, qy),
                qx * 8 * scale,
                qy * 8 * scale,
                scale,
                tx,
                ty,
            );
        assert(qy * gw >= 0) by (nonlinear_arith)
            requires
                qy >= 0,
                gw >= 1,
        ;
        assert(false);
    }
}

/// Processing one more cell `(cx, cy)` — the next one in row-major order —
/// adds exactly that cell's glyph cover to the covered region.
proof fn lemma_grid_covers_step<const LENGTH: usize>(
    grid: Grid<LENGTH>,
    font: Font,
    scale: int,
    cx: int,
    cy: int,
    tx: int,
    ty: int,
)
    requires
        grid.wf(),
        0 <= cx < grid.spec_width(),
        0 <= cy < grid.spec_height(),
    ensures
        grid_covers_before(
            grid,
            font,
            scale,
            cy * grid.spec_width() + cx + 1,
            tx,
            ty,
        ) <==> (grid_covers_before(grid, font, scale, cy * grid.spec_width() + cx, tx, ty)
            || covers(glyph_at(grid, font, cx, cy), cx * 8 * scale, cy * 8 * scale, scale, tx, ty)),
{
    let gw = grid.spec_width();
    let i = cy * gw + cx;
    if grid_covers_before(grid, font, scale, i + 1, tx, ty) {
        let (qx, qy): (int, int) = choose|qx: int, qy: int|
            0 <= qx < gw && 0 <= qy < grid.spec_height() && qy * gw + qx < i + 1 && covers(
                #[trigger] glyph_at(grid, font, qx, qy),
                qx * 8 * scale,
                qy * 8 * scale,
                scale,
                tx,
                ty,
            );
        if qy * gw + qx == i {
            lemma_row_major_unique(gw, qx, qy, cx, cy);
        } else {
            assert(grid_covers_before(grid, font, scale, i, tx, ty));
        }
    }
    if grid_covers_before(grid, font, scale, i, tx, ty) {
        let (qx, qy): (int, int) = choose|qx: int, qy: int|
            0 <= qx < gw && 0 <= qy < grid.spec_height() && qy * gw + qx < i && covers(
                #[trigger] glyph_at(grid, font, qx, qy),
                qx * 8 * scale,
                qy * 8 * scale,
                scale,
                tx,
                ty,
            );
        assert(grid_covers_before(grid, font, scale, i + 1, tx, ty));
    }
    if covers(glyph_at(grid, font, cx, cy), cx * 8 * scale, cy * 8 * scale, scale, tx, ty) {
        assert(grid_covers_before(grid, font, scale, i + 1, tx, ty));
    }
}

/// Once every cell is processed, the restricted covered region is the full
/// one.
proof fn lemma_grid_covers_done<const LENGTH: usize>(
    grid: Grid<LENGTH>,
    font: Font,
    scale: int,
    tx: int,
    ty: int,
)
    requires
        grid.wf(),
    ensures
        grid_covers_before(
            grid,
            font,
            scale,
            grid.spec_height() * grid.spec_width(),
            tx,
            ty,
        ) <==> grid_covers(grid, font, scale, tx, ty),
{
    let gw = grid.spec_width();
    let gh = grid.spec_height();
    if grid_covers(grid, font, scale, tx, ty) {
        let (qx, qy): (int, int) = choose|qx: int, qy: int|
            0 <= qx < gw && 0 <= qy < gh && covers(
                #[trigger] glyph_at(grid, font, qx, qy),
                qx * 8 * scale,
                qy * 8 * scale,
                scale,
                tx,
                ty,
            );
        assert(qy * gw + qx < gh * gw) by (nonlinear_arith)
            requires
                0 <= qx < gw,
                0 <= qy < gh,
        ;
        assert(grid_covers_before(grid, font, scale, gh * gw, tx, ty));
    }
}

/// With a font whose every glyph has no on pixel, no cell of any grid covers
/// any target pixel: rendering such a font leaves every buffer pixel black.
pub proof fn lemma_render_blank_font<const LENGTH: usize>(
    grid: Grid<LENGTH>,
    font: Font,
    scale: int,
    tx: int,
    ty: int,
)
    requires
        forall|i: int, px: int, py: int|
            0 <= i < 256 && 0 <= px < 8 && 0 <= py < 8 ==> !(#[trigger] font@[i].is_on(px, py)),
    ensures
        !grid_covers(grid, font, scale, tx, ty),
{
    let gw = grid.spec_width();
    if grid_covers(grid, font, scale, tx, ty) {
        let (qx, qy): (int, int) = choose|qx: int, qy: int|
            0 <= qx < gw && 0 <= qy < grid.spec_height() && covers(
                #[trigger] glyph_at(grid, font, qx, qy),
                qx * 8 * scale,
                qy * 8 * scale,
                scale,
                tx,
                ty,
            );
        let g = glyph_at(grid, font, qx, qy);
        let (px, py): (int, int) = choose|px: int, py: int|
            0 <= px < 8 && 0 <= py < 8 && #[trigger] g.is_on(px, py) && block_covers(
                qx * 8 * scale,
                qy * 8 * scale,
                scale,
                px,
                py,
                tx,
                ty,
            );
        assert(false);
    }
}

/// Renders a grid to a buffer through a font: clears the buffer to opaque
/// black, then draws every cell's glyph at pixel origin
/// `(x * 8 * scale, y * 8 * scale)`. A pixel ends up opaque white exactly
/// when some cell's glyph covers it, and opaque black otherwise; targets
/// outside the buffer are silently clipped.
#[verifier::loop_isolation(false)]
pub fn render<const LENGTH: usize>(from: &Grid<LENGTH>, to: &mut Buffer, font: &Font, scale: usize)
    requires
        from.wf(),
        old(to).wf(),
        1 <= scale,
        from.spec_width() * 8 * scale <= usize::MAX,
        from.spec_height() * 8 * scale <= usize::MAX,
    ensures
        final(to).wf(),
        final(to)@.len() == old(to)@.len(),
        final(to).spec_width() == old(to).spec_width(),
        forall|tx: int, ty: int|
            0 <= tx < old(to).spec_width() && 0 <= ty < old(to).spec_height() ==> (
            #[trigger] pixel_at(final(to)@, old(to).spec_width(), tx, ty))@ == (if grid_covers(
                *from,
                *font,
                scale as int,
                tx,
                ty,
            ) {
                WHITE_ARGB
            } else {
                BLACK_ARGB
            }),
{
    let w = to.width();
    let ghost bh = old(to).spec_height();
    to.clear();
    let gw = from.width();
    let gh = from.height();
    proof {
        assert forall|tx: int, ty: int| 0 <= tx < w && 0 <= ty < bh implies (#[trigger] pixel_at(
            to@,
            w as int,
            tx,
            ty,
        ))@ == BLACK_ARGB && !grid_covers_before(*from, *font, scale as int, 0, tx, ty) by {
            lemma_row_major_index(w as int, to@.len() as int, tx, ty);
            lemma_grid_covers_empty(*from, *font, scale as int, tx, ty);
        }
    }
    let mut y: usize = 0;
    while y < gh
        invariant
            y <= gh,
            to.wf(),
            to@.len() == old(to)@.len(),
            to.spec_width() == old(to).spec_width(),
            forall|tx: int, ty: int|
                0 <= tx < w && 0 <= ty < bh ==> (#[trigger] pixel_at(to@, w as int, tx, ty))@ == (
                if grid_covers_before(*from, *font, scale as int, y * gw, tx, ty) {
                    WHITE_ARGB
                } else {
                    BLACK_ARGB
                }),
        decreases gh - y,
    {
        let mut x: usize = 0;
        while x < gw
            invariant
                x <= gw,
                y < gh,
                to.wf(),
                to@.len() == old(to)@.len(),
                to.spec_width() == old(to).spec_width(),
                forall|tx: int, ty: int|
                    0 <= tx < w && 0 <= ty < bh ==> (#[trigger] pixel_at(to@, w as int, tx, ty))@
                        == (if grid_covers_before(
                        *from,
                        *font,
                        scale as int,
                        y * gw + x,
                        tx,
                        ty,
                    ) {
                        WHITE_ARGB
                    } else {
                        BLACK_ARGB
                    }),
            decreases gw - x,
        {
            let cell = *(from.get(x, y).unwrap());
            let glyph = font.glyph(cell.glyph());
            proof {
                assert((x as int) * 8 * (scale as int) + 8 * (scale as int) <= (gw as int) * 8 * (
                scale as int) && (x as int) * 8 <= (x as int) * 8 * (scale as int))
                    by (nonlinear_arith)
                    requires
                        0 <= x < gw,
                        1 <= scale,
                ;
                assert((y as int) * 8 * (scale as int) + 8 * (scale as int) <= (gh as int) * 8 * (
                scale as int) && (y as int) * 8 <= (y as int) * 8 * (scale as int))
                    by (nonlinear_arith)
                    requires
                        0 <= y < gh,
                        1 <= scale,
                ;
            }
            let px0 = x * 8 * scale;
            let py0 = y * 8 * scale;
            to.draw_glyph(&glyph, px0, py0, scale);
            proof {
                assert forall|tx: int, ty: int| 0 <= tx < w && 0 <= ty < bh implies (
                #[trigger] pixel_at(to@, w as int, tx, ty))@ == (if grid_covers_before(
                    *from,
                    *font,
                    scale as int,
                    y * gw + x + 1,
                    tx,
                    ty,
                ) {
                    WHITE_ARGB
                } else {
                    BLACK_ARGB
                }) by {
                    lemma_grid_covers_step(
                        *from,
                        *font,
                        scale as int,
                        x as int,
                        y as int,
                        tx,
                        ty,
                    );
                }
            }
            x = x + 1;
        }
        proof {
            assert((y as int + 1) * (gw as int) == (y as int) * (gw as int) + gw as int)
                by (nonlinear_arith);
        }
        y = y + 1;
    }
    proof {
        assert forall|tx: int, ty: int| 0 <= tx < w && 0 <= ty < bh implies (#[trigger] pixel_at(
            to@,
            w as int,
            tx,
            ty,
        ))@ == (if grid_covers(*from, *font, scale as int, tx, ty) {
            WHITE_ARGB
        } else {
            BLACK_ARGB
        }) by {
            lemma_grid_covers_done(*from, *font, scale as int, tx, ty);
        }
    }
}

} // verus!
