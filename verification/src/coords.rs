//! Coordinate utilities: pixel coordinates, int-grid CSV indices and cell
//! coordinates, all converted into one canonical tile-position space.

use vstd::prelude::*;
use vstd::arithmetic::div_mod::{
    lemma_fundamental_div_mod, lemma_fundamental_div_mod_converse, lemma_multiply_divide_lt,
    lemma_mod_division_less_than_divisor, lemma_div_pos_is_pos, lemma_remainder_lower,
};

verus! {

/// A cell coordinate in a layer: `TilePos(column, row)`, with row 0 at the
/// bottom of the layer. File coordinates put row 0 at the top, so every
/// conversion below inverts the vertical axis.
#[derive(Clone, Copy, PartialEq, Eq, Structural, Debug, Hash)]
pub struct TilePos(pub u32, pub u32);

/// Tile position that a pixel coordinate (top-left of a tile, in the layer's
/// pixel space) falls in, or `None` when the pixel lies outside the layer's
/// range; such a tile can never be rendered.
pub open spec fn spec_pixel_to_tile_pos(
    px_x: int,
    px_y: int,
    grid_size: int,
    layer_height_in_tiles: int,
) -> Option<TilePos> {
    if px_x >= 0 && px_y >= 0 && px_y / grid_size < layer_height_in_tiles {
        Some(
            TilePos(
                (px_x / grid_size) as u32,
                (layer_height_in_tiles - px_y / grid_size - 1) as u32,
            ),
        )
    } else {
        None
    }
}

/// Converts a pixel coordinate into the tile position of the cell containing
/// it, inverting the file's top-down vertical axis into a bottom-up row index.
pub fn pixel_to_tile_pos(
    px_x: i32,
    px_y: i32,
    grid_size: i32,
    layer_height_in_tiles: i32,
) -> (r: Option<TilePos>)
    requires
        grid_size > 0,
        layer_height_in_tiles >= 0,
    ensures
        r == spec_pixel_to_tile_pos(
            px_x as int,
            px_y as int,
            grid_size as int,
            layer_height_in_tiles as int,
        ),
{
    if px_x >= 0 && px_y >= 0 {
        let col: u32 = (px_x as u32) / (grid_size as u32);
        let row_top_down: u32 = (px_y as u32) / (grid_size as u32);
        if row_top_down < layer_height_in_tiles as u32 {
            Some(TilePos(col, layer_height_in_tiles as u32 - row_top_down - 1))
        } else {
            None
        }
    } else {
        None
    }
}

/// Row-major decoding of an int-grid CSV index into a tile position, or
/// `None` when the index lies outside the `width * height` cell grid.
pub open spec fn spec_csv_index_to_tile_pos(index: int, width: int, height: int) -> Option<
    TilePos,
> {
    if 0 <= index && index < width * height {
        Some(TilePos((index % width) as u32, (height - index / width - 1) as u32))
    } else {
        None
    }
}

/// Decodes a row-major int-grid CSV index into a tile position: column
/// `index % width`, row `height - index / width - 1` (bottom-up). Returns
/// `None` when the index is out of the grid's bounds.
pub fn int_grid_index_to_tile_pos(
    index: usize,
    layer_width_in_tiles: u32,
    layer_height_in_tiles: u32,
) -> (r: Option<TilePos>)
    ensures
        r == spec_csv_index_to_tile_pos(
            index as int,
            layer_width_in_tiles as int,
            layer_height_in_tiles as int,
        ),
{
    let ghost w = layer_width_in_tiles as int;
    let ghost h = layer_height_in_tiles as int;
    if layer_width_in_tiles == 0 {
        assert(w * h == 0);
        return None;
    }
    let q: usize = index / (layer_width_in_tiles as usize);
    let r: usize = index % (layer_width_in_tiles as usize);
    proof {
        lemma_mod_division_less_than_divisor(index as int, w);
        lemma_div_pos_is_pos(index as int, w);
        if q < h {
            lemma_fundamental_div_mod(index as int, w);
            assert(index == w * (index as int / w) + index as int % w);
            assert(index as int / w <= h - 1);
            assert(w * (index as int / w) <= w * (h - 1)) by (nonlinear_arith)
                requires w > 0 && index as int / w <= h - 1;
            assert(w * (h - 1) + w == w * h) by (nonlinear_arith);
            assert(index < w * h);
        }
        if index < w * h {
            lemma_multiply_divide_lt(index as int, w, h);
            assert(index as int / w < h);
        }
    }
    if q < layer_height_in_tiles as usize {
        Some(TilePos(r as u32, layer_height_in_tiles - q as u32 - 1))
    } else {
        None
    }
}

/// Row-major encoding of a tile position back into its int-grid CSV index;
/// the inverse of `spec_csv_index_to_tile_pos` on in-bounds positions.
pub open spec fn spec_tile_pos_to_csv_index(pos: TilePos, width: int, height: int) -> int {
    (height - pos.1 - 1) * width + pos.0
}

/// Encodes a tile position into the row-major int-grid CSV index it decodes
/// from.
pub fn tile_pos_to_csv_index(pos: TilePos, width: u32, height: u32) -> (r: usize)
    requires
        pos.0 < width,
        pos.1 < height,
        width * height <= usize::MAX,
    ensures
        r == spec_tile_pos_to_csv_index(pos, width as int, height as int),
        r < width * height,
{
    proof {
        let w = width as int;
        let h = height as int;
        let row_top_down = h - pos.1 - 1;
        assert(0 <= row_top_down < h);
        assert(row_top_down * w + pos.0 < w * h) by (nonlinear_arith)
            requires 0 <= row_top_down <= h - 1 && 0 <= pos.0 < w && w > 0;
    }
    (height - pos.1 - 1) as usize * width as usize + pos.0 as usize
}

/// Coordinate round-trip: decoding any in-bounds CSV index to a tile position
/// and encoding that position again recovers the index, and decoding is
/// defined exactly on the indices below `width * height`.
pub proof fn lemma_csv_index_round_trip(index: int, width: int, height: int)
    requires
        0 <= index < width * height,
        0 <= width <= u32::MAX,
        0 <= height <= u32::MAX,
    ensures
        spec_csv_index_to_tile_pos(index, width, height) matches Some(pos)
            && spec_tile_pos_to_csv_index(pos, width, height) == index && pos.0 < width && pos.1
            < height,
{
    assert(width > 0 && height > 0) by (nonlinear_arith)
        requires 0 <= index < width * height && 0 <= width && 0 <= height;
    lemma_fundamental_div_mod(index, width);
    lemma_mod_division_less_than_divisor(index, width);
    lemma_div_pos_is_pos(index, width);
    lemma_multiply_divide_lt(index, width, height);
    assert(0 <= index % width < width);
    assert(0 <= index / width < height);
    let pos = spec_csv_index_to_tile_pos(index, width, height)->Some_0;
    assert(pos.0 == index % width && pos.1 == height - index / width - 1);
    assert(spec_tile_pos_to_csv_index(pos, width, height) == (index / width) * width + index
        % width);
    assert((index / width) * width == width * (index / width)) by (nonlinear_arith);
}

/// Coordinate round-trip, the other direction: encoding any in-bounds tile
/// position and decoding the resulting CSV index recovers the position.
pub proof fn lemma_tile_pos_round_trip(pos: TilePos, width: int, height: int)
    requires
        pos.0 < width,
        pos.1 < height,
        width <= u32::MAX,
        height <= u32::MAX,
    ensures
        spec_csv_index_to_tile_pos(spec_tile_pos_to_csv_index(pos, width, height), width, height)
            == Some(pos),
{
    let row_top_down = height - pos.1 - 1;
    let index = spec_tile_pos_to_csv_index(pos, width, height);
    assert(0 <= row_top_down < height);
    assert(row_top_down * width + pos.0 < width * height && 0 <= row_top_down * width + pos.0)
        by (nonlinear_arith)
        requires 0 <= row_top_down <= height - 1 && 0 <= pos.0 < width && width > 0;
    lemma_fundamental_div_mod_converse(index, width, row_top_down, pos.0 as int);
    assert(index % width == pos.0 && index / width == row_top_down);
}

/// The pixel-space center of a cell, in half-pixel units (twice the pixel
/// coordinate, so that odd cell sizes stay exact): used to place int-grid
/// cell markers. The row axis follows the inverted (bottom-up) convention.
pub open spec fn spec_tile_pos_to_translation_centered(pos: TilePos, cell_size: int) -> (
    int,
    int,
) {
    ((2 * pos.0 + 1) * cell_size, (2 * pos.1 + 1) * cell_size)
}

/// Computes the pixel-space center of a cell in half-pixel units.
pub fn tile_pos_to_translation_centered(pos: TilePos, cell_size: i32) -> (r: (i64, i64))
    requires
        cell_size > 0,
        (2 * pos.0 + 1) * cell_size <= i64::MAX,
        (2 * pos.1 + 1) * cell_size <= i64::MAX,
    ensures
        (r.0 as int, r.1 as int) == spec_tile_pos_to_translation_centered(pos, cell_size as int),
{
    proof {
        assert(forall|c: int, s: int|
            c >= 0 && s > 0 ==> (2 * c) * s >= 0 && #[trigger] ((2 * c) * s) == (2 * c + 1) * s
                - s) by (nonlinear_arith);
    }
    let x: i64 = 2 * (pos.0 as i64) * (cell_size as i64) + cell_size as i64;
    let y: i64 = 2 * (pos.1 as i64) * (cell_size as i64) + cell_size as i64;
    (x, y)
}

} // verus!
