//! Conway's Game of Life on a toroidal grid, with a bitmap compositor that
//! turns the grid into packed RGBA pixels.

mod bitmap;
mod cell;
mod color;
mod rules;
mod universe;

pub use bitmap::{
    composed, lemma_packed_bytes_are_rgba, pixel_byte, pixel_color, PixelView, RenderPixels,
};
pub use cell::{cell_value, Cell};
pub use color::{
    all_hex, color_ok, describes_failure, hex_digit_value, hex_value, is_hex_digit, pack_rgba,
    parse_color, parsed_color, strip_hash, ColorError,
};
pub use rules::{
    interior_count, lemma_corner_wraps_to_opposite_corner, lemma_interior_matches_toroidal,
    live_at, neighbor_count, next_generation, next_state,
};
pub use universe::{
    addresses_in_state, all_dead, glyph, grid_text, lemma_seed_empty_is_identity, row_text, seeded,
    valid_dims, GridError, GridView, Universe,
};
