//! A 2D pseudographic text-mode renderer: a fixed-size grid of character
//! cells is drawn to a raw ARGB pixel buffer through an 8x8 bitmap font.

pub mod backend;
pub mod render;
pub mod text;
