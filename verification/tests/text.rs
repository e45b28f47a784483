use textmode::text::Cell;
use textmode::text::Font;
use textmode::text::Glyph;
use textmode::text::Grid;

fn x_glyph_rows() -> [u8; 8] {
    [
        0b1000_0001, //
        0b0100_0010, //
        0b0010_0100, //
        0b0001_1000, //
        0b0001_1000, //
        0b0010_0100, //
        0b0100_0010, //
        0b1000_0001, //
    ]
}

#[test]
fn cell_new() {
    let cell = Cell::new(0x41);
    assert_eq!(cell.glyph(), 0x41);
}

#[test]
fn default() {
    let cell = Cell::default();
    assert_eq!(cell.glyph(), 0x20);
}

#[test]
fn from_u8() {
    let cell: Cell = 0x42u8.into();
    assert_eq!(cell.glyph(), 0x42);
}

#[test]
fn empty_cell() {
    assert_eq!(Cell::empty().glyph(), 0x20);
    assert_eq!(Cell::empty(), Cell::default());
}

#[test]
fn font_new() {
    let mut glyphs = [Glyph::new([0; 8]); 256];
    // Set 'X' glyph for testing
    glyphs[0x58] = Glyph::new(x_glyph_rows());

    let font = Font::new(glyphs);
    assert_eq!(font.glyph(0x58), Glyph::new(x_glyph_rows()));
}

#[test]
fn font_lookup_is_total() {
    let mut glyphs = [Glyph::new([0; 8]); 256];
    glyphs[0] = Glyph::new([1; 8]);
    glyphs[255] = Glyph::new([2; 8]);
    let font = Font::new(glyphs);
    assert_eq!(font.glyph(0), Glyph::new([1; 8]));
    assert_eq!(font.glyph(255), Glyph::new([2; 8]));
    for index in 0..=255u8 {
        // every byte has an entry; no lookup may panic
        let _ = font.glyph(index);
    }
}

#[test]
fn pixels() {
    let glyph = Glyph::new(x_glyph_rows());

    let mut pixels = Vec::new();
    let mut cursor = glyph.pixels();
    while let Some(pixel) = cursor.next() {
        pixels.push(pixel);
    }
    assert_eq!(
        pixels,
        vec![
            (0, 0),
            (7, 0),
            (1, 1),
            (6, 1),
            (2, 2),
            (5, 2),
            (3, 3),
            (4, 3),
            (3, 4),
            (4, 4),
            (2, 5),
            (5, 5),
            (1, 6),
            (6, 6),
            (0, 7),
            (7, 7)
        ]
    );
}

#[test]
fn pixels_of_default_glyph_are_none() {
    let glyph = Glyph::default();
    let mut cursor = glyph.pixels();
    assert_eq!(cursor.next(), None);
    assert_eq!(cursor.next(), None);
}

#[test]
fn pixels_restart_from_the_top() {
    let glyph = Glyph::new([0b0000_0001, 0, 0, 0, 0, 0, 0, 0]);
    let mut first = glyph.pixels();
    assert_eq!(first.next(), Some((7, 0)));
    assert_eq!(first.next(), None);
    let mut second = glyph.pixels();
    assert_eq!(second.next(), Some((7, 0)));
}

#[test]
fn dimensions_8x8() {
    let glyph = Glyph::new([0u8; 8]);

    assert_eq!(glyph.width(), 8);
    assert_eq!(glyph.height(), 8);
}

#[test]
fn grid_new() {
    let grid: Grid<2000> = Grid::new(80);
    assert_eq!(grid.width(), 80);
    assert_eq!(grid.height(), 25);
}

#[test]
fn cells_are_empty_by_default() {
    let grid: Grid<2000> = Grid::new(80);
    assert!(grid.iter().iter().all(|cell| cell.glyph() == Cell::empty().glyph()));
}

#[test]
fn get_cells() {
    let grid: Grid<2000> = Grid::new(80);
    assert!(grid.get(0, 0).is_some());
    assert!(grid.get(79, 24).is_some());
    assert!(grid.get(80, 25).is_none()); // Out of bounds
    assert!(grid.get(100, 100).is_none()); // Out of bounds
}

#[test]
fn get_mut_cells() {
    let mut grid: Grid<2000> = Grid::new(80);
    if let Some(cell) = grid.get_mut(0, 0) {
        *cell = Cell::new(0x41); // Set to 'A'
    }
    assert_eq!(grid.get(0, 0).unwrap().glyph(), 0x41);
    assert!(grid.get_mut(80, 25).is_none()); // Out of bounds
}

#[test]
fn write_then_read_every_cell() {
    let mut grid: Grid<12> = Grid::new(4);
    for y in 0..3 {
        for x in 0..4 {
            let value = (y * 4 + x) as u8;
            if let Some(cell) = grid.get_mut(x, y) {
                *cell = Cell::new(value);
            }
            assert_eq!(grid.get(x, y).unwrap().glyph(), value);
        }
    }
}

#[test]
fn iter() {
    let grid = Grid::<6>::with_cells(
        [
            Cell::new(0x41),
            Cell::new(0x42),
            Cell::new(0x43),
            Cell::new(0x44),
            Cell::new(0x45),
            Cell::new(0x46),
        ],
        3,
    );

    let cells = grid.iter();
    assert_eq!(cells.len(), 6);
}

#[test]
fn rows() {
    let grid = Grid::<6>::with_cells(
        [
            Cell::new(0x41),
            Cell::new(0x42),
            Cell::new(0x43),
            Cell::new(0x44),
            Cell::new(0x45),
            Cell::new(0x46),
        ],
        3,
    );

    let rows = grid.rows();
    assert_eq!(rows.len(), 2);
    assert_eq!(
        rows[0],
        vec![Cell::new(0x41), Cell::new(0x42), Cell::new(0x43)]
    );
    assert_eq!(
        rows[1],
        vec![Cell::new(0x44), Cell::new(0x45), Cell::new(0x46)]
    );
}
