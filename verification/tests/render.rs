use textmode::render::render;
use textmode::render::Buffer;
use textmode::render::Color;
use textmode::text::Cell;
use textmode::text::Font;
use textmode::text::Glyph;
use textmode::text::Grid;

fn x_glyph() -> Glyph {
    Glyph::new([
        0b1000_0001, //
        0b0100_0010, //
        0b0010_0100, //
        0b0001_1000, //
        0b0001_1000, //
        0b0010_0100, //
        0b0100_0010, //
        0b1000_0001, //
    ])
}

// The white pixels scenario B expects of the 'X' glyph at scale 1.
fn x_pixels() -> Vec<(usize, usize)> {
    vec![
        (0, 0),
        (7, 0),
        (1, 1),
        (6, 1),
        (2, 2),
        (5, 2),
        (3, 3),
        (4, 3),
        (3, 4),
        (4, 4),
        (2, 5),
        (5, 5),
        (1, 6),
        (6, 6),
        (0, 7),
        (7, 7),
    ]
}

// Helper function that visualizes a buffer as
// █ • • • • • • █
// • █ • • • • █ •
// • • █ • • █ • •
// • • • █ █ • • •
// • • • █ █ • • •
// • • █ • • █ • •
// • █ • • • • █ •
// █ • • • • • • █
fn buffer_to_string(buffer: &Buffer) -> Vec<String> {
    let mut result = Vec::new();
    for y in 0..buffer.height() {
        let mut line = String::new();
        for x in 0..buffer.width() {
            let pixel = buffer.pixel(y * buffer.width() + x);
            if pixel == Color::white() {
                line.push('█');
            } else {
                line.push('•');
            }
            if x + 1 < buffer.width() {
                line.push(' ');
            }
        }
        result.push(line);
    }
    result
}

#[test]
fn render_empty_grid() {
    // Create a non-empty buffer as an example.
    let pixels = vec![Color::white().to_argb(); 64];
    let mut buffer = Buffer::from_argb(pixels, 8);

    // Create a "Font". It will be entirely empty for this test.
    let font = Font::new([Glyph::new([0; 8]); 256]);

    // Create an empty grid.
    let grid: Grid<1> = Grid::new(1);

    // Render the empty grid to the buffer.
    render(&grid, &mut buffer, &font, 1);

    // Check that the buffer is now entirely empty (all pixels are black).
    assert!((0..64).all(|i| buffer.pixel(i).to_argb() == Color::black().to_argb()));
}

#[test]
fn render_single_cell_grid() {
    // Create an empty buffer.
    let pixels = vec![Color::black().to_argb(); 64];
    let mut buffer = Buffer::from_argb(pixels, 8);

    // Create a "Font" with a single glyph that is not empty.
    let font = Font::new([x_glyph(); 256]);

    // Create a grid with a single cell that has the glyph.
    let mut grid: Grid<1> = Grid::new(1);
    *grid.get_mut(0, 0).unwrap() = Cell::new(0x58);

    // Render the grid to the buffer.
    render(&grid, &mut buffer, &font, 1);

    // Check that the buffer has the expected pixel data for the glyph.
    let expected = vec![
        String::from("█ • • • • • • █"),
        String::from("• █ • • • • █ •"),
        String::from("• • █ • • █ • •"),
        String::from("• • • █ █ • • •"),
        String::from("• • • █ █ • • •"),
        String::from("• • █ • • █ • •"),
        String::from("• █ • • • • █ •"),
        String::from("█ • • • • • • █"),
    ];
    let actual = buffer_to_string(&buffer);
    assert_eq!(actual, expected);
}

#[test]
fn render_single_cell_grid_white_set() {
    // Scenario: the 'X' font over a 1x1 grid at scale 1 paints white exactly
    // at the sixteen expected coordinates, black everywhere else.
    let pixels = vec![0u32; 64];
    let mut buffer = Buffer::from_argb(pixels, 8);
    let font = Font::new([x_glyph(); 256]);
    let mut grid: Grid<1> = Grid::new(1);
    *grid.get_mut(0, 0).unwrap() = Cell::new(0x58);

    render(&grid, &mut buffer, &font, 1);

    let white = x_pixels();
    for y in 0..8 {
        for x in 0..8 {
            let expected = if white.contains(&(x, y)) {
                Color::white().to_argb()
            } else {
                Color::black().to_argb()
            };
            assert_eq!(buffer.pixel(y * 8 + x).to_argb(), expected);
        }
    }
}

#[test]
fn render_single_cell_grid_scale2() {
    // Scenario: at scale 2 into a 16x16 buffer, every white pixel of the
    // scale-1 image becomes a solid 2x2 white block at twice its offset.
    let pixels = vec![0u32; 256];
    let mut buffer = Buffer::from_argb(pixels, 16);
    let font = Font::new([x_glyph(); 256]);
    let mut grid: Grid<1> = Grid::new(1);
    *grid.get_mut(0, 0).unwrap() = Cell::new(0x58);

    render(&grid, &mut buffer, &font, 2);

    let white = x_pixels();
    for y in 0..16 {
        for x in 0..16 {
            let expected = if white.contains(&(x / 2, y / 2)) {
                Color::white().to_argb()
            } else {
                Color::black().to_argb()
            };
            assert_eq!(buffer.pixel(y * 16 + x).to_argb(), expected);
        }
    }
}

#[test]
fn render_clips_a_small_buffer() {
    // Scenario: a buffer smaller than the grid's full pixel size must not
    // fail; in-bounds pixels are set as usual and the rest are dropped.
    let pixels = vec![0u32; 16];
    let mut buffer = Buffer::from_argb(pixels, 4);
    let font = Font::new([x_glyph(); 256]);
    let mut grid: Grid<1> = Grid::new(1);
    *grid.get_mut(0, 0).unwrap() = Cell::new(0x58);

    render(&grid, &mut buffer, &font, 1);

    let white = x_pixels();
    for y in 0..4 {
        for x in 0..4 {
            let expected = if white.contains(&(x, y)) {
                Color::white().to_argb()
            } else {
                Color::black().to_argb()
            };
            assert_eq!(buffer.pixel(y * 4 + x).to_argb(), expected);
        }
    }
}

#[test]
fn buffer_from_argb() {
    let pixels: Vec<u32> = vec![0xFF00_FF00, 0xFFFF_0000, 0xFF00_00FF, 0xFFFF_FFFF];
    let buffer = Buffer::from_argb(pixels, 2);
    assert_eq!(buffer.pixel(0), Color::from_argb(0xFF, 0x00, 0xFF, 0x00)); // Green
    assert_eq!(buffer.pixel(1), Color::from_argb(0xFF, 0xFF, 0x00, 0x00)); // Red
    assert_eq!(buffer.pixel(2), Color::from_argb(0xFF, 0x00, 0x00, 0xFF)); // Blue
    assert_eq!(buffer.pixel(3), Color::from_argb(0xFF, 0xFF, 0xFF, 0xFF)); // White
}

#[test]
fn buffer_index_mut() {
    let pixels = vec![0u32; 4];
    let mut buffer = Buffer::from_argb(pixels, 2);

    // Modify the first pixel
    buffer.set_pixel(0, Color::from_argb(0xFF, 0x00, 0xFF, 0x00)); // Green
    assert_eq!(buffer.pixel(0), Color::from_argb(0xFF, 0x00, 0xFF, 0x00)); // Green
}

#[test]
fn buffer_draw_glyph() {
    let pixels = vec![0; 64];
    let mut buffer = Buffer::from_argb(pixels, 8);

    let glyph = x_glyph();
    buffer.draw_glyph(&glyph, 0, 0, 1);

    // Assert that we drew an 'X' glyph at the top-left corner
    let expected = vec![
        String::from("█ • • • • • • █"),
        String::from("• █ • • • • █ •"),
        String::from("• • █ • • █ • •"),
        String::from("• • • █ █ • • •"),
        String::from("• • • █ █ • • •"),
        String::from("• • █ • • █ • •"),
        String::from("• █ • • • • █ •"),
        String::from("█ • • • • • • █"),
    ];
    assert_eq!(buffer_to_string(&buffer), expected);
}

#[test]
fn clear_twice_is_clear_once() {
    let pixels: Vec<u32> = vec![0x1234_5678, 0xFFFF_FFFF, 0x0000_0000, 0xABCD_EF01];
    let mut buffer = Buffer::from_argb(pixels, 2);
    buffer.clear();
    let once: Vec<u32> = (0..4).map(|i| buffer.pixel(i).to_argb()).collect();
    buffer.clear();
    let twice: Vec<u32> = (0..4).map(|i| buffer.pixel(i).to_argb()).collect();
    assert_eq!(once, twice);
    assert!(once.iter().all(|&argb| argb == Color::black().to_argb()));
}

#[test]
fn default_black() {
    let color = Color::default();
    assert_eq!(color, Color::black());
}

#[test]
fn new_color() {
    let color = Color::new(0xFF00_FF00); // Fully opaque green
    assert_eq!(color.to_argb(), 0xFF00_FF00);
}

#[test]
fn from_argb() {
    let color = Color::from_argb(0xFF, 0x00, 0xFF, 0x00); // Fully opaque green
    assert_eq!(color.to_argb(), 0xFF00_FF00);
}

#[test]
fn from_rgb() {
    let color = Color::from_rgb(0x00, 0xFF, 0x00); // Fully opaque green
    assert_eq!(color.to_argb(), 0xFF00_FF00);
}

#[test]
fn argb_round_trip_packs_big_endian() {
    let cases: [(u8, u8, u8, u8); 4] = [
        (0x00, 0x00, 0x00, 0x00),
        (0xFF, 0xFF, 0xFF, 0xFF),
        (0x12, 0x34, 0x56, 0x78),
        (0xFF, 0x00, 0x00, 0x01),
    ];
    for (a, r, g, b) in cases {
        let packed = ((a as u32) << 24) | ((r as u32) << 16) | ((g as u32) << 8) | (b as u32);
        assert_eq!(Color::from_argb(a, r, g, b).to_argb(), packed);
    }
}
