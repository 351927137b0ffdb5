use ldtk_scene::ldtk::TileInstance;
use ldtk_scene::partition::layer_grid_tiles;
use ldtk_scene::coords::TilePos;
use ldtk_scene::tile_makers::tile_pos_to_tile_maker;

fn tile_at(px_x: i32, px_y: i32, t: i32) -> TileInstance {
    TileInstance { px_x, px_y, src_x: 0, src_y: 0, t, f: 0 }
}

#[test]
fn colliding_tiles_split_into_two_partitions() {
    // a 2x2-cell layer with grid size 32: two tiles collide at pixel (0, 0)
    let tiles = vec![tile_at(0, 0, 2), tile_at(0, 0, 5), tile_at(32, 0, 1)];
    let partitions = layer_grid_tiles(tiles);

    assert_eq!(partitions.len(), 2);
    assert_eq!(partitions[0], vec![tile_at(0, 0, 2), tile_at(32, 0, 1)]);
    assert_eq!(partitions[1], vec![tile_at(0, 0, 5)]);

    // the first partition renders the first colliding tile and the lone one
    let maker0 = tile_pos_to_tile_maker(2, 32, partitions[0].clone());
    assert_eq!(maker0.make_tile(TilePos(0, 1)).unwrap().texture_index, 2);
    assert_eq!(maker0.make_tile(TilePos(1, 1)).unwrap().texture_index, 1);

    // the overflow partition renders the remaining tile at the same position
    let maker1 = tile_pos_to_tile_maker(2, 32, partitions[1].clone());
    assert_eq!(maker1.make_tile(TilePos(0, 1)).unwrap().texture_index, 5);
    assert!(maker1.make_tile(TilePos(1, 1)).is_none());
}

#[test]
fn partitions_are_collision_free_and_cover_the_input() {
    let tiles = vec![
        tile_at(0, 0, 1),
        tile_at(0, 0, 2),
        tile_at(0, 0, 3),
        tile_at(32, 32, 4),
        tile_at(32, 32, 5),
        tile_at(64, 0, 6),
    ];
    let partitions = layer_grid_tiles(tiles.clone());

    assert_eq!(partitions.len(), 3);
    for p in &partitions {
        for i in 0..p.len() {
            for j in 0..p.len() {
                if i != j {
                    assert!(p[i].px_x != p[j].px_x || p[i].px_y != p[j].px_y);
                }
            }
        }
    }
    let mut all: Vec<TileInstance> = Vec::new();
    for p in &partitions {
        all.extend(p.iter().cloned());
    }
    all.sort_by_key(|t| t.t);
    let mut expected = tiles.clone();
    expected.sort_by_key(|t| t.t);
    assert_eq!(all, expected);
}

#[test]
fn partition_is_deterministic() {
    let tiles = vec![tile_at(0, 0, 2), tile_at(0, 0, 5), tile_at(32, 0, 1), tile_at(0, 0, 9)];
    let first = layer_grid_tiles(tiles.clone());
    let second = layer_grid_tiles(tiles);
    assert_eq!(first, second);
}

#[test]
fn empty_tile_list_yields_one_empty_partition() {
    let partitions = layer_grid_tiles(Vec::new());
    assert_eq!(partitions.len(), 1);
    assert!(partitions[0].is_empty());
}
