use ldtk_scene::assembly::spawn_level;
use ldtk_scene::coords::TilePos;
use ldtk_scene::error::SpawnError;
use ldtk_scene::ldtk::{
    EntityInstance, LayerInstance, Level, TileInstance, TilesetDefinition, TilesetDefinitions,
    TilesetRectangle, Type,
};
use ldtk_scene::registry::{EntityRegistry, IntCellRegistry};

fn empty_layer(kind: Type, identifier: &str) -> LayerInstance {
    LayerInstance {
        layer_instance_type: kind,
        identifier: String::from(identifier),
        c_wid: 3,
        c_hei: 2,
        grid_size: 32,
        px_total_offset_x: 0,
        px_total_offset_y: 0,
        tileset_def_uid: None,
        grid_tiles: Vec::new(),
        auto_layer_tiles: Vec::new(),
        int_grid_csv: Vec::new(),
        entity_instances: Vec::new(),
    }
}

fn tile_at(px_x: i32, px_y: i32, t: i32) -> TileInstance {
    TileInstance { px_x, px_y, src_x: 0, src_y: 0, t, f: 0 }
}

fn tileset_one() -> TilesetDefinitions {
    TilesetDefinitions {
        defs: vec![TilesetDefinition { uid: 1, px_wid: 256, px_hei: 128, tile_grid_size: 16, spacing: 2 }],
    }
}

#[test]
fn spawn_level_orders_layers_bottom_to_top() {
    // file order is top-to-bottom: the tile layer listed last renders first
    let mut top = empty_layer(Type::Tiles, "Top");
    top.tileset_def_uid = Some(1);
    top.grid_tiles = vec![tile_at(0, 0, 3)];
    let mut bottom = empty_layer(Type::Tiles, "Bottom");
    bottom.tileset_def_uid = Some(1);
    bottom.grid_tiles = vec![tile_at(32, 0, 4)];
    let level = Level { px_wid: 96, px_hei: 64, layer_instances: vec![top, bottom] };
    let ereg: EntityRegistry<i32> = EntityRegistry::new(0);
    let ireg: IntCellRegistry<i32> = IntCellRegistry::new(0);

    let plan = spawn_level(&level, &tileset_one(), &ereg, &ireg).unwrap();

    assert_eq!(plan.layers.len(), 2);
    assert_eq!(plan.layers[0].depth, 0);
    assert_eq!(plan.layers[1].depth, 1);
    // depth 0 belongs to the layer listed last in the file
    assert_eq!(plan.layers[0].tiles.get(TilePos(1, 1)).unwrap().texture_index, 4);
    assert_eq!(plan.layers[1].tiles.get(TilePos(0, 1)).unwrap().texture_index, 3);
    // the bound tileset decides tile size, texture size and spacing
    assert_eq!(plan.layers[0].tileset_uid, Some(1));
    assert_eq!(plan.layers[0].tile_size, 16);
    assert_eq!(plan.layers[0].texture_width, 256);
    assert_eq!(plan.layers[0].texture_height, 128);
    assert_eq!(plan.layers[0].spacing, 2);
    // the layer scale compensates the 32-pixel grid over 16-pixel tiles
    assert_eq!(plan.layers[0].scale_num, 32);
    assert_eq!(plan.layers[0].scale_den, 16);
}

#[test]
fn colliding_tiles_get_their_own_sub_layer() {
    let mut layer = empty_layer(Type::Tiles, "Deco");
    layer.tileset_def_uid = Some(1);
    layer.grid_tiles = vec![tile_at(0, 0, 2), tile_at(0, 0, 5), tile_at(32, 0, 1)];
    let level = Level { px_wid: 96, px_hei: 64, layer_instances: vec![layer] };
    let ereg: EntityRegistry<i32> = EntityRegistry::new(0);
    let ireg: IntCellRegistry<i32> = IntCellRegistry::new(0);

    let plan = spawn_level(&level, &tileset_one(), &ereg, &ireg).unwrap();

    assert_eq!(plan.layers.len(), 2);
    assert_eq!(plan.layers[0].tiles.get(TilePos(0, 1)).unwrap().texture_index, 2);
    assert_eq!(plan.layers[0].tiles.get(TilePos(1, 1)).unwrap().texture_index, 1);
    assert_eq!(plan.layers[1].tiles.get(TilePos(0, 1)).unwrap().texture_index, 5);
    assert!(plan.layers[1].tiles.get(TilePos(1, 1)).is_none());
}

#[test]
fn unbound_int_grid_layer_gates_tiles_by_nonzero() {
    let mut layer = empty_layer(Type::IntGrid, "Collision");
    layer.int_grid_csv = vec![0, 1, 2, -1, 0, 3];
    let level = Level { px_wid: 96, px_hei: 64, layer_instances: vec![layer] };
    let ereg: EntityRegistry<i32> = EntityRegistry::new(0);
    let mut ireg: IntCellRegistry<i32> = IntCellRegistry::new(0);
    ireg.register(String::from("Collision"), 2, 42);

    let plan = spawn_level(&level, &tileset_one(), &ereg, &ireg).unwrap();

    assert_eq!(plan.layers.len(), 1);
    let placement = &plan.layers[0];
    // a tile exists at a position exactly where the int value is non-zero
    assert!(placement.tiles.get(TilePos(0, 0)).is_some());
    assert!(placement.tiles.get(TilePos(1, 1)).is_some());
    assert!(placement.tiles.get(TilePos(0, 1)).is_none());
    assert!(placement.tiles.get(TilePos(1, 0)).is_none());
    assert!(!placement.tiles.get(TilePos(2, 1)).unwrap().visible);
    // the unbound placeholder keeps the layer's own grid size, blank texture
    assert_eq!(placement.tileset_uid, None);
    assert_eq!(placement.tile_size, 32);
    assert_eq!(placement.texture_width, 0);
    assert_eq!(placement.texture_height, 0);
    // one semantic marker per non-zero cell, in CSV index order
    assert_eq!(placement.int_cells.len(), 4);
    assert_eq!(placement.int_cells[0].position, TilePos(1, 1));
    assert_eq!(placement.int_cells[0].value, 1);
    assert_eq!(placement.int_cells[0].behavior, 0);
    assert_eq!(placement.int_cells[1].value, 2);
    assert_eq!(placement.int_cells[1].behavior, 42);
    // markers sit at the cell centers, in half-pixel units
    assert_eq!(placement.int_cells[0].translation_x, 96);
    assert_eq!(placement.int_cells[0].translation_y, 96);
}

#[test]
fn entity_layer_resolves_transforms_and_behaviors() {
    let mut layer = empty_layer(Type::Entities, "Actors");
    layer.entity_instances = vec![
        EntityInstance {
            identifier: String::from("Player"),
            px_x: 10,
            px_y: 20,
            tile: Some(TilesetRectangle { tileset_uid: 1 }),
        },
        EntityInstance {
            identifier: String::from("Ghost"),
            px_x: 40,
            px_y: 8,
            tile: None,
        },
    ];
    let level = Level { px_wid: 96, px_hei: 64, layer_instances: vec![layer] };
    let mut ereg: EntityRegistry<i32> = EntityRegistry::new(-1);
    ereg.register(String::from("Actors"), String::from("Player"), 5);
    let ireg: IntCellRegistry<i32> = IntCellRegistry::new(0);

    let plan = spawn_level(&level, &tileset_one(), &ereg, &ireg).unwrap();

    assert_eq!(plan.layers.len(), 0);
    assert_eq!(plan.entities.len(), 2);
    let player = &plan.entities[0];
    assert_eq!(player.identifier, "Player");
    assert_eq!(player.translation_x, 10);
    // the vertical axis is inverted against the level's pixel height
    assert_eq!(player.translation_y, 44);
    assert_eq!(player.depth, 0);
    assert_eq!(player.tileset.unwrap().uid, 1);
    assert_eq!(player.behavior, 5);
    // an unregistered pair falls back to the default behavior, no error
    let ghost_entity = &plan.entities[1];
    assert_eq!(ghost_entity.behavior, -1);
    assert_eq!(ghost_entity.tileset, None);
}

#[test]
fn missing_tileset_definition_is_fatal() {
    let mut layer = empty_layer(Type::AutoLayer, "Walls");
    layer.tileset_def_uid = Some(42);
    let level = Level { px_wid: 96, px_hei: 64, layer_instances: vec![layer] };
    let ereg: EntityRegistry<i32> = EntityRegistry::new(0);
    let ireg: IntCellRegistry<i32> = IntCellRegistry::new(0);

    assert_eq!(
        spawn_level(&level, &tileset_one(), &ereg, &ireg).err(),
        Some(SpawnError::MissingTilesetDefinition(42))
    );
}

#[test]
fn oversized_int_grid_array_is_fatal() {
    let mut layer = empty_layer(Type::IntGrid, "Collision");
    layer.int_grid_csv = vec![0, 0, 0, 0, 0, 0, 1];
    let level = Level { px_wid: 96, px_hei: 64, layer_instances: vec![layer] };
    let ereg: EntityRegistry<i32> = EntityRegistry::new(0);
    let ireg: IntCellRegistry<i32> = IntCellRegistry::new(0);

    assert_eq!(
        spawn_level(&level, &tileset_one(), &ereg, &ireg).err(),
        Some(SpawnError::CsvIndexOutOfBounds)
    );
}

#[test]
fn layer_offsets_are_carried_and_inverted() {
    let mut layer = empty_layer(Type::Tiles, "Shifted");
    layer.tileset_def_uid = Some(1);
    layer.px_total_offset_x = 5;
    layer.px_total_offset_y = 9;
    let level = Level { px_wid: 96, px_hei: 64, layer_instances: vec![layer] };
    let ereg: EntityRegistry<i32> = EntityRegistry::new(0);
    let ireg: IntCellRegistry<i32> = IntCellRegistry::new(0);

    let plan = spawn_level(&level, &tileset_one(), &ereg, &ireg).unwrap();

    assert_eq!(plan.layers.len(), 1);
    assert_eq!(plan.layers[0].offset_x, 5);
    assert_eq!(plan.layers[0].offset_y, -9);
}
