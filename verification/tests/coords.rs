use ldtk_scene::coords::{
    int_grid_index_to_tile_pos, pixel_to_tile_pos, tile_pos_to_csv_index,
    tile_pos_to_translation_centered, TilePos,
};

#[test]
fn pixel_conversion_inverts_rows() {
    assert_eq!(pixel_to_tile_pos(0, 0, 32, 2), Some(TilePos(0, 1)));
    assert_eq!(pixel_to_tile_pos(32, 0, 32, 2), Some(TilePos(1, 1)));
    assert_eq!(pixel_to_tile_pos(0, 32, 32, 2), Some(TilePos(0, 0)));
    assert_eq!(pixel_to_tile_pos(33, 63, 32, 2), Some(TilePos(1, 0)));
}

#[test]
fn pixel_conversion_rejects_out_of_layer() {
    assert_eq!(pixel_to_tile_pos(0, 64, 32, 2), None);
    assert_eq!(pixel_to_tile_pos(-1, 0, 32, 2), None);
    assert_eq!(pixel_to_tile_pos(0, -1, 32, 2), None);
}

#[test]
fn csv_index_decoding_inverts_rows() {
    assert_eq!(int_grid_index_to_tile_pos(0, 3, 2), Some(TilePos(0, 1)));
    assert_eq!(int_grid_index_to_tile_pos(2, 3, 2), Some(TilePos(2, 1)));
    assert_eq!(int_grid_index_to_tile_pos(3, 3, 2), Some(TilePos(0, 0)));
    assert_eq!(int_grid_index_to_tile_pos(5, 3, 2), Some(TilePos(2, 0)));
    assert_eq!(int_grid_index_to_tile_pos(6, 3, 2), None);
    assert_eq!(int_grid_index_to_tile_pos(0, 0, 5), None);
}

#[test]
fn csv_index_round_trips() {
    for index in 0..6usize {
        let pos = int_grid_index_to_tile_pos(index, 3, 2).unwrap();
        assert_eq!(tile_pos_to_csv_index(pos, 3, 2), index);
    }
    let pos = TilePos(2, 0);
    let index = tile_pos_to_csv_index(pos, 3, 2);
    assert_eq!(int_grid_index_to_tile_pos(index, 3, 2), Some(pos));
}

#[test]
fn centered_translation_in_half_pixels() {
    assert_eq!(tile_pos_to_translation_centered(TilePos(0, 0), 32), (32, 32));
    assert_eq!(tile_pos_to_translation_centered(TilePos(1, 0), 32), (96, 32));
    assert_eq!(tile_pos_to_translation_centered(TilePos(2, 3), 16), (80, 112));
}
