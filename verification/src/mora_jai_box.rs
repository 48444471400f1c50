//! The box of nine coloured tiles, three by three.

pub mod tile_color;
