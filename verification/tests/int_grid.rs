use ldtk_scene::coords::{tile_pos_to_csv_index, TilePos};
use ldtk_scene::error::SpawnError;
use ldtk_scene::int_grid::nonzero_cells;
use ldtk_scene::ldtk::TileInstance;
use ldtk_scene::tile_makers::{
    decode_flip, tile_pos_to_invisible_tile, tile_pos_to_tile_bundle_maker, tile_pos_to_tile_maker,
};

#[test]
fn nonzero_cells_decode_in_index_order() {
    // int-grid CSV [0, 1, 2, -1, 0, 3] over a 3x2 grid: the non-zero cells
    // sit at CSV indices 1, 2, 3 and 5; indices 0 and 4 yield no cell
    let csv = vec![0, 1, 2, -1, 0, 3];
    let cells = nonzero_cells(&csv, 3, 2).unwrap();

    assert_eq!(cells.len(), 4);
    assert_eq!(cells[0], (TilePos(1, 1), 1));
    assert_eq!(cells[1], (TilePos(2, 1), 2));
    assert_eq!(cells[2], (TilePos(0, 0), -1));
    assert_eq!(cells[3], (TilePos(2, 0), 3));

    for (pos, _) in &cells {
        // each decoded position satisfies the row-inversion formula
        let index = tile_pos_to_csv_index(*pos, 3, 2);
        assert!(csv[index] != 0);
        assert!(index != 0 && index != 4);
    }
}

#[test]
fn nonzero_cell_outside_grid_is_fatal() {
    let csv = vec![0, 0, 0, 0, 0, 0, 7];
    assert_eq!(nonzero_cells(&csv, 3, 2), Err(SpawnError::CsvIndexOutOfBounds));
}

#[test]
fn zero_padding_outside_grid_is_ignored() {
    let csv = vec![0, 1, 0, 0, 0, 0, 0, 0];
    let cells = nonzero_cells(&csv, 3, 2).unwrap();
    assert_eq!(cells, vec![(TilePos(1, 1), 1)]);
}

#[test]
fn flip_decode_table_is_exhaustive() {
    assert_eq!(decode_flip(0), (false, false));
    assert_eq!(decode_flip(1), (true, false));
    assert_eq!(decode_flip(2), (false, true));
    assert_eq!(decode_flip(3), (true, true));
    assert_eq!(decode_flip(4), (false, false));
    assert_eq!(decode_flip(-1), (false, false));
}

#[test]
fn bundle_maker_wraps_the_tile_maker() {
    let grid_tiles = vec![TileInstance { px_x: 0, px_y: 0, src_x: 0, src_y: 0, t: 6, f: 1 }];
    let maker = tile_pos_to_tile_maker(1, 32, grid_tiles);
    let bundle_maker = tile_pos_to_tile_bundle_maker(maker);
    let bundle = bundle_maker.make_bundle(TilePos(0, 0)).unwrap();
    assert_eq!(bundle.tile.texture_index, 6);
    assert!(bundle.tile.flip_x && !bundle.tile.flip_y);
    assert!(bundle_maker.make_bundle(TilePos(1, 0)).is_none());
}

#[test]
fn invisible_tile_is_always_produced() {
    let tile = tile_pos_to_invisible_tile(TilePos(7, 9)).unwrap();
    assert!(!tile.visible);
    assert!(!tile.flip_x && !tile.flip_y);
    assert_eq!(tile.texture_index, 0);
}
