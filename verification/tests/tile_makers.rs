use ldtk_scene::coords::TilePos;
use ldtk_scene::ldtk::TileInstance;
use ldtk_scene::tile_makers::{
    tile_pos_to_tile_bundle_if_int_grid_nonzero_maker, tile_pos_to_tile_maker, TileMaker,
};

fn tile(px_x: i32, px_y: i32, src_x: i32, src_y: i32, t: i32, f: i32) -> TileInstance {
    TileInstance { px_x, px_y, src_x, src_y, t, f }
}

#[test]
fn test_tile_pos_to_tile_maker() {
    let grid_tiles = vec![
        tile(0, 0, 32, 0, 1, 0),
        tile(32, 0, 32, 32, 4, 0),
        tile(0, 32, 64, 0, 2, 0),
        tile(32, 32, 32, 0, 1, 0),
    ];

    let tile_maker = tile_pos_to_tile_maker(2, 32, grid_tiles);

    assert_eq!(tile_maker.make_tile(TilePos(0, 0)).unwrap().texture_index, 2);
    assert_eq!(tile_maker.make_tile(TilePos(1, 0)).unwrap().texture_index, 1);
    assert_eq!(tile_maker.make_tile(TilePos(0, 1)).unwrap().texture_index, 1);
    assert_eq!(tile_maker.make_tile(TilePos(1, 1)).unwrap().texture_index, 4);
}

#[test]
fn test_tile_pos_to_tile_maker_with_flips() {
    let grid_tiles = vec![
        tile(0, 0, 0, 0, 0, 0),
        tile(32, 0, 0, 0, 0, 1),
        tile(0, 32, 0, 0, 0, 2),
        tile(64, 0, 0, 0, 0, 3),
    ];

    let tile_maker = tile_pos_to_tile_maker(2, 32, grid_tiles);

    assert!(!tile_maker.make_tile(TilePos(0, 0)).unwrap().flip_x);
    assert!(tile_maker.make_tile(TilePos(0, 0)).unwrap().flip_y);

    assert!(!tile_maker.make_tile(TilePos(0, 1)).unwrap().flip_x);
    assert!(!tile_maker.make_tile(TilePos(0, 1)).unwrap().flip_y);

    assert!(tile_maker.make_tile(TilePos(1, 1)).unwrap().flip_x);
    assert!(!tile_maker.make_tile(TilePos(1, 1)).unwrap().flip_y);

    assert!(tile_maker.make_tile(TilePos(2, 1)).unwrap().flip_x);
    assert!(tile_maker.make_tile(TilePos(2, 1)).unwrap().flip_y);
}

#[test]
fn test_tile_pos_to_tile_bundle_if_int_grid_nonzero_maker() {
    let int_grid_csv = vec![0, 1, 2, -1, 0, 3];

    let tile_bundle_maker = tile_pos_to_tile_bundle_if_int_grid_nonzero_maker(
        TileMaker::Invisible,
        int_grid_csv,
        3,
        2,
    )
    .unwrap();

    assert!(tile_bundle_maker.make_bundle(TilePos(0, 0)).is_some());
    assert!(tile_bundle_maker.make_bundle(TilePos(1, 0)).is_none());
    assert!(tile_bundle_maker.make_bundle(TilePos(2, 0)).is_some());
    assert!(tile_bundle_maker.make_bundle(TilePos(0, 1)).is_none());
    assert!(tile_bundle_maker.make_bundle(TilePos(1, 1)).is_some());
    assert!(tile_bundle_maker.make_bundle(TilePos(2, 1)).is_some());
}
