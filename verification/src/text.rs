mod cell;
mod font;
mod grid;

pub use cell::Cell;
pub use cell::EMPTY_INDEX;
pub use font::Font;
pub use font::Glyph;
pub use font::Pixels;
pub use font::bit_pos;
pub use font::lemma_pixels_from_end;
pub use font::lemma_pixels_from_ordered;
pub use font::lemma_pixels_from_step;
pub use font::on_at;
pub use font::pixels_from;
pub use grid::Grid;
pub use grid::lemma_row_major_index;
pub use grid::lemma_row_major_unique;
pub use grid::lemma_write_then_read;
