//! Layer and entity assembly: turns one level into its placement plan.
//!
//! Layers are processed in reverse file order (file order is top-to-bottom,
//! rendering wants bottom-to-top), each tile sub-layer taking the next depth
//! index. Entity layers emit entity placements at the current depth without
//! claiming one; tile, auto-tile and int-grid layers emit one sub-layer per
//! partition of their merged tile list.

use vstd::prelude::*;
use crate::coords::{
    spec_tile_pos_to_translation_centered, tile_pos_to_translation_centered, TilePos,
};
use crate::error::SpawnError;
use crate::int_grid::{nonzero_cells, spec_nonzero_cells};
use crate::ldtk::{
    layer_wf, level_wf, spec_lookup_tileset, EntityInstance, LayerInstance, Level, TileInstance,
    TilesetDefinition, TilesetDefinitions, Type,
};
use crate::partition::{layer_grid_tiles, lemma_partition_count, spec_partition};
use crate::registry::{EntityRegistry, IntCellRegistry};
use crate::tile_makers::{
    int_grid_tile_map, spec_int_grid_tile_map, spec_tile_map, tile_lookup_map, Tile, TileMap,
};

verus! {

/// One semantic int-grid cell marker: its position, raw value, pixel-space
/// center (half-pixel units) and resolved behavior.
pub struct IntCellPlacement<B> {
    pub position: TilePos,
    pub value: i32,
    pub translation_x: i64,
    pub translation_y: i64,
    pub behavior: B,
}

/// One rendered sub-layer: its depth index, resolved tileset binding and
/// geometry, its tile lookup, and (first int-grid sub-layer only) its cell
/// markers. `scale_num / scale_den` is the uniform layer scale compensating
/// a tileset tile size that differs from the layer's grid size.
pub struct LayerPlacement<B> {
    pub depth: usize,
    pub tileset_uid: Option<i32>,
    pub tile_size: i32,
    pub texture_width: i32,
    pub texture_height: i32,
    pub grid_size: i32,
    pub spacing: i32,
    pub offset_x: i32,
    pub offset_y: i64,
    pub scale_num: i32,
    pub scale_den: i32,
    pub tiles: TileMap,
    pub int_cells: Vec<IntCellPlacement<B>>,
}

/// One placed entity: its identifier, render translation (the vertical axis
/// inverted against the level height), originating layer depth, resolved
/// tileset binding and resolved behavior.
pub struct EntityPlacement<B> {
    pub identifier: String,
    pub translation_x: i32,
    pub translation_y: i64,
    pub depth: usize,
    pub tileset: Option<TilesetDefinition>,
    pub behavior: B,
}

/// The placement plan of one level: ordered sub-layers and entities.
pub struct PlacementPlan<B> {
    pub layers: Vec<LayerPlacement<B>>,
    pub entities: Vec<EntityPlacement<B>>,
}

/// The mathematical model of one sub-layer placement.
pub struct LayerModel<B> {
    pub depth: int,
    pub tileset_uid: Option<i32>,
    pub tile_size: int,
    pub texture_width: int,
    pub texture_height: int,
    pub grid_size: int,
    pub spacing: int,
    pub offset_x: int,
    pub offset_y: int,
    pub scale_num: int,
    pub scale_den: int,
    pub tiles: Map<TilePos, Tile>,
    pub int_cells: Seq<IntCellPlacement<B>>,
}

/// The mathematical model of one entity placement.
pub struct EntityModel<B> {
    pub identifier: Seq<char>,
    pub translation_x: int,
    pub translation_y: int,
    pub depth: int,
    pub tileset: Option<TilesetDefinition>,
    pub behavior: B,
}

/// A sub-layer placement realizes its model.
pub open spec fn layer_placement_matches<B>(p: LayerPlacement<B>, m: LayerModel<B>) -> bool {
    &&& p.depth as int == m.depth
    &&& p.tileset_uid == m.tileset_uid
    &&& p.tile_size as int == m.tile_size
    &&& p.texture_width as int == m.texture_width
    &&& p.texture_height as int == m.texture_height
    &&& p.grid_size as int == m.grid_size
    &&& p.spacing as int == m.spacing
    &&& p.offset_x as int == m.offset_x
    &&& p.offset_y as int == m.offset_y
    &&& p.scale_num as int == m.scale_num
    &&& p.scale_den as int == m.scale_den
    &&& p.tiles@ == m.tiles
    &&& p.int_cells@ == m.int_cells
}

/// An entity placement realizes its model.
pub open spec fn entity_placement_matches<B>(p: EntityPlacement<B>, m: EntityModel<B>) -> bool {
    &&& p.identifier@ == m.identifier
    &&& p.translation_x as int == m.translation_x
    &&& p.translation_y as int == m.translation_y
    &&& p.depth as int == m.depth
    &&& p.tileset == m.tileset
    &&& p.behavior == m.behavior
}

/// A sequence of sub-layer placements realizes its models, in order.
pub open spec fn layer_placements_match<B>(
    ps: Seq<LayerPlacement<B>>,
    ms: Seq<LayerModel<B>>,
) -> bool {
    ps.len() == ms.len() && forall|i: int| 0 <= i < ms.len() ==> layer_placement_matches(
        #[trigger] ps[i],
        ms[i],
    )
}

/// A sequence of entity placements realizes its models, in order.
pub open spec fn entity_placements_match<B>(
    ps: Seq<EntityPlacement<B>>,
    ms: Seq<EntityModel<B>>,
) -> bool {
    ps.len() == ms.len() && forall|i: int| 0 <= i < ms.len() ==> entity_placement_matches(
        #[trigger] ps[i],
        ms[i],
    )
}

/// The model of one placed entity: pixel anchor carried over, the vertical
/// axis inverted against the level's pixel height (entities live in level
/// space, not layer space), depth of the originating layer, the tileset of
/// its displayed rectangle if that uid is known, and the behavior the
/// registry resolves for (layer identifier, entity identifier).
pub open spec fn spec_entity_model<B>(
    layer: LayerInstance,
    defs: Seq<TilesetDefinition>,
    ereg: EntityRegistry<B>,
    level_px_hei: int,
    depth: int,
    e: EntityInstance,
) -> EntityModel<B> {
    EntityModel {
        identifier: e.identifier@,
        translation_x: e.px_x as int,
        translation_y: level_px_hei - e.px_y,
        depth,
        tileset: match e.tile {
            Some(t) => spec_lookup_tileset(defs, t.tileset_uid),
            None => None,
        },
        behavior: ereg.spec_resolve(layer.identifier@, e.identifier@),
    }
}

/// The entity placements of an entities layer, in instance order.
pub open spec fn spec_entity_models<B>(
    layer: LayerInstance,
    defs: Seq<TilesetDefinition>,
    ereg: EntityRegistry<B>,
    level_px_hei: int,
    depth: int,
) -> Seq<EntityModel<B>> {
    Seq::new(
        layer.entity_instances@.len(),
        |j: int| spec_entity_model(layer, defs, ereg, level_px_hei, depth, layer.entity_instances@[j]),
    )
}

/// The semantic cell markers of an int-grid layer: one per non-zero cell, in
/// CSV index order, each centered in its cell and given the behavior the
/// registry resolves for (layer identifier, cell value).
pub open spec fn spec_int_cell_models<B>(layer: LayerInstance, ireg: IntCellRegistry<B>) -> Result<
    Seq<IntCellPlacement<B>>,
    SpawnError,
> {
    match spec_nonzero_cells(layer.int_grid_csv@, layer.c_wid as int, layer.c_hei as int) {
        Err(e) => Err(e),
        Ok(cells) => Ok(
            Seq::new(
                cells.len(),
                |j: int| IntCellPlacement {
                    position: cells[j].0,
                    value: cells[j].1,
                    translation_x: spec_tile_pos_to_translation_centered(
                        cells[j].0,
                        layer.grid_size as int,
                    ).0 as i64,
                    translation_y: spec_tile_pos_to_translation_centered(
                        cells[j].0,
                        layer.grid_size as int,
                    ).1 as i64,
                    behavior: ireg.spec_resolve(layer.identifier@, cells[j].1),
                },
            ),
        ),
    }
}

/// The sub-layers of a tile, auto-tile or int-grid layer under a resolved
/// tileset binding `tsd` (`None` = unbound placeholder): one sub-layer per
/// partition of the merged tile list, at increasing depths; an unbound
/// int-grid layer shows the invisible gated tiles instead, and the first
/// int-grid sub-layer carries the cell markers.
pub open spec fn spec_tile_layer_models<B>(
    layer: LayerInstance,
    tsd: Option<TilesetDefinition>,
    ireg: IntCellRegistry<B>,
    depth: int,
) -> Result<Seq<LayerModel<B>>, SpawnError> {
    let merged = layer.grid_tiles@ + layer.auto_layer_tiles@;
    let parts = spec_partition(merged);
    let is_int_grid = layer.layer_instance_type is IntGrid;
    if is_int_grid && tsd is None && layer.int_grid_csv@.len() > layer.c_wid * layer.c_hei {
        Err(SpawnError::CsvIndexOutOfBounds)
    } else {
        match (if is_int_grid {
            spec_int_cell_models(layer, ireg)
        } else {
            Ok(Seq::empty())
        }) {
            Err(e) => Err(e),
            Ok(markers) => Ok(
                Seq::new(
                    parts.len(),
                    |k: int| LayerModel {
                        depth: depth + k,
                        tileset_uid: match tsd {
                            Some(d) => Some(d.uid),
                            None => None,
                        },
                        tile_size: match tsd {
                            Some(d) => d.tile_grid_size as int,
                            None => layer.grid_size as int,
                        },
                        texture_width: match tsd {
                            Some(d) => d.px_wid as int,
                            None => 0,
                        },
                        texture_height: match tsd {
                            Some(d) => d.px_hei as int,
                            None => 0,
                        },
                        grid_size: layer.grid_size as int,
                        spacing: match tsd {
                            Some(d) => d.spacing as int,
                            None => 0,
                        },
                        offset_x: layer.px_total_offset_x as int,
                        offset_y: -(layer.px_total_offset_y as int),
                        scale_num: layer.grid_size as int,
                        scale_den: match tsd {
                            Some(d) => d.tile_grid_size as int,
                            None => layer.grid_size as int,
                        },
                        tiles: if is_int_grid && tsd is None {
                            spec_int_grid_tile_map(
                                layer.int_grid_csv@,
                                layer.c_wid as int,
                                layer.c_hei as int,
                            )
                        } else {
                            spec_tile_map(parts[k], layer.c_hei as int, layer.grid_size as int)
                        },
                        int_cells: if is_int_grid && k == 0 {
                            markers
                        } else {
                            Seq::empty()
                        },
                    },
                ),
            ),
        }
    }
}

/// What one layer contributes to the plan at a given depth: entity
/// placements for an entities layer, sub-layer placements otherwise. A
/// tileset uid bound to a tile layer but absent from the definitions is a
/// fatal contract violation.
pub open spec fn spec_layer_result<B>(
    layer: LayerInstance,
    defs: Seq<TilesetDefinition>,
    ereg: EntityRegistry<B>,
    ireg: IntCellRegistry<B>,
    level_px_hei: int,
    depth: int,
) -> Result<(Seq<LayerModel<B>>, Seq<EntityModel<B>>), SpawnError> {
    if layer.layer_instance_type is Entities {
        Ok((Seq::empty(), spec_entity_models(layer, defs, ereg, level_px_hei, depth)))
    } else {
        match layer.tileset_def_uid {
            Some(uid) => match spec_lookup_tileset(defs, uid) {
                None => Err(SpawnError::MissingTilesetDefinition(uid)),
                Some(d) => match spec_tile_layer_models(layer, Some(d), ireg, depth) {
                    Err(e) => Err(e),
                    Ok(lms) => Ok((lms, Seq::empty())),
                },
            },
            None => match spec_tile_layer_models(layer, None, ireg, depth) {
                Err(e) => Err(e),
                Ok(lms) => Ok((lms, Seq::empty())),
            },
        }
    }
}

/// The plan of a sequence of layers, already in render (reverse file) order,
/// threading the depth counter through; the first failing layer aborts the
/// whole pass.
pub open spec fn spec_spawn_layers<B>(
    layers: Seq<LayerInstance>,
    defs: Seq<TilesetDefinition>,
    ereg: EntityRegistry<B>,
    ireg: IntCellRegistry<B>,
    level_px_hei: int,
    depth: int,
) -> Result<(Seq<LayerModel<B>>, Seq<EntityModel<B>>), SpawnError>
    decreases layers.len(),
{
    if layers.len() == 0 {
        Ok((Seq::empty(), Seq::empty()))
    } else {
        match spec_layer_result(layers.first(), defs, ereg, ireg, level_px_hei, depth) {
            Err(e) => Err(e),
            Ok(pair) => match spec_spawn_layers(
                layers.drop_first(),
                defs,
                ereg,
                ireg,
                level_px_hei,
                depth + pair.0.len(),
            ) {
                Err(e) => Err(e),
                Ok(rest) => Ok((pair.0 + rest.0, pair.1 + rest.1)),
            },
        }
    }
}

/// The plan of a whole level: its layers in reverse file order, depths
/// starting at 0.
pub open spec fn spec_spawn_level<B>(
    level: Level,
    defs: TilesetDefinitions,
    ereg: EntityRegistry<B>,
    ireg: IntCellRegistry<B>,
) -> Result<(Seq<LayerModel<B>>, Seq<EntityModel<B>>), SpawnError> {
    spec_spawn_layers(
        level.layer_instances@.reverse(),
        defs.defs@,
        ereg,
        ireg,
        level.px_hei as int,
        0,
    )
}

/// How many depth indices one layer can claim at most: one per tile of its
/// merged tile list, plus one.
pub open spec fn spec_layer_budget(l: LayerInstance) -> int {
    l.grid_tiles@.len() + l.auto_layer_tiles@.len() + 1int
}

/// How many depth indices a sequence of layers can claim at most.
pub open spec fn spec_level_budget(layers: Seq<LayerInstance>) -> int
    decreases layers.len(),
{
    if layers.len() == 0 {
        0
    } else {
        spec_layer_budget(layers.first()) + spec_level_budget(layers.drop_first())
    }
}

proof fn lemma_level_budget_nonneg(layers: Seq<LayerInstance>)
    ensures
        spec_level_budget(layers) >= 0,
    decreases layers.len(),
{
    if layers.len() > 0 {
        lemma_level_budget_nonneg(layers.drop_first());
    }
}

/// What a spawn pass becomes after one more layer: unchanged on failure,
/// else the layer's own contribution appended, at the depth left off.
pub open spec fn spec_spawn_step<B>(
    prev: Result<(Seq<LayerModel<B>>, Seq<EntityModel<B>>), SpawnError>,
    x: LayerInstance,
    defs: Seq<TilesetDefinition>,
    ereg: EntityRegistry<B>,
    ireg: IntCellRegistry<B>,
    level_px_hei: int,
    d: int,
) -> Result<(Seq<LayerModel<B>>, Seq<EntityModel<B>>), SpawnError> {
    match prev {
        Err(e) => Err(e),
        Ok(acc) => match spec_layer_result(x, defs, ereg, ireg, level_px_hei, d + acc.0.len()) {
            Err(e) => Err(e),
            Ok(pair) => Ok((acc.0 + pair.0, acc.1 + pair.1)),
        },
    }
}

/// Appending one layer at the end of the sequence composes: the new layer is
/// processed after the others, at the depth they left off.
proof fn lemma_spawn_layers_push<B>(
    s: Seq<LayerInstance>,
    x: LayerInstance,
    defs: Seq<TilesetDefinition>,
    ereg: EntityRegistry<B>,
    ireg: IntCellRegistry<B>,
    level_px_hei: int,
    d: int,
)
    ensures
        spec_spawn_layers(s.push(x), defs, ereg, ireg, level_px_hei, d) == spec_spawn_step(
            spec_spawn_layers(s, defs, ereg, ireg, level_px_hei, d),
            x,
            defs,
            ereg,
            ireg,
            level_px_hei,
            d,
        ),
    decreases s.len(),
{
    let t = s.push(x);
    if s.len() == 0 {
        assert(t.drop_first() =~= Seq::<LayerInstance>::empty());
        assert(t.first() == x);
        assert(spec_spawn_layers::<B>(s, defs, ereg, ireg, level_px_hei, d) == Ok::<
            _,
            SpawnError,
        >((Seq::<LayerModel<B>>::empty(), Seq::<EntityModel<B>>::empty())));
        match spec_layer_result::<B>(x, defs, ereg, ireg, level_px_hei, d) {
            Err(e) => {
                assert(spec_spawn_layers::<B>(t, defs, ereg, ireg, level_px_hei, d) == Err::<
                    (Seq<LayerModel<B>>, Seq<EntityModel<B>>),
                    SpawnError,
                >(e));
                assert(spec_spawn_step::<B>(
                    spec_spawn_layers::<B>(s, defs, ereg, ireg, level_px_hei, d),
                    x,
                    defs,
                    ereg,
                    ireg,
                    level_px_hei,
                    d,
                ) == Err::<(Seq<LayerModel<B>>, Seq<EntityModel<B>>), SpawnError>(e));
            },
            Ok(pair) => {
                assert(pair.0 + Seq::<LayerModel<B>>::empty() =~= pair.0);
                assert(Seq::<LayerModel<B>>::empty() + pair.0 =~= pair.0);
                assert(pair.1 + Seq::<EntityModel<B>>::empty() =~= pair.1);
                assert(Seq::<EntityModel<B>>::empty() + pair.1 =~= pair.1);
                assert(spec_spawn_layers::<B>(
                    t.drop_first(),
                    defs,
                    ereg,
                    ireg,
                    level_px_hei,
                    d + pair.0.len(),
                ) == Ok::<_, SpawnError>(
                    (Seq::<LayerModel<B>>::empty(), Seq::<EntityModel<B>>::empty()),
                ));
                assert(spec_spawn_layers::<B>(t, defs, ereg, ireg, level_px_hei, d) == Ok::<
                    _,
                    SpawnError,
                >((pair.0, pair.1)));
                assert(spec_spawn_step::<B>(
                    spec_spawn_layers::<B>(s, defs, ereg, ireg, level_px_hei, d),
                    x,
                    defs,
                    ereg,
                    ireg,
                    level_px_hei,
                    d,
                ) == Ok::<_, SpawnError>((pair.0, pair.1)));
            },
        }
    } else {
        assert(t.first() == s.first());
        assert(t.drop_first() =~= s.drop_first().push(x));
        match spec_layer_result::<B>(s.first(), defs, ereg, ireg, level_px_hei, d) {
            Err(e) => {
                assert(spec_spawn_layers::<B>(t, defs, ereg, ireg, level_px_hei, d) == Err::<
                    (Seq<LayerModel<B>>, Seq<EntityModel<B>>),
                    SpawnError,
                >(e));
                assert(spec_spawn_layers::<B>(s, defs, ereg, ireg, level_px_hei, d) == Err::<
                    (Seq<LayerModel<B>>, Seq<EntityModel<B>>),
                    SpawnError,
                >(e));
            },
            Ok(first_pair) => {
                let d1 = d + first_pair.0.len();
                lemma_spawn_layers_push(s.drop_first(), x, defs, ereg, ireg, level_px_hei, d1);
                match spec_spawn_layers::<B>(s.drop_first(), defs, ereg, ireg, level_px_hei, d1) {
                    Err(e) => {
                        assert(spec_spawn_layers::<B>(t, defs, ereg, ireg, level_px_hei, d)
                            == Err::<(Seq<LayerModel<B>>, Seq<EntityModel<B>>), SpawnError>(e));
                        assert(spec_spawn_layers::<B>(s, defs, ereg, ireg, level_px_hei, d)
                            == Err::<(Seq<LayerModel<B>>, Seq<EntityModel<B>>), SpawnError>(e));
                    },
                    Ok(rest_acc) => {
                        let d2 = d1 + rest_acc.0.len();
                        assert(spec_spawn_layers::<B>(s, defs, ereg, ireg, level_px_hei, d)
                            == Ok::<_, SpawnError>(
                            ((first_pair.0 + rest_acc.0), (first_pair.1 + rest_acc.1)),
                        ));
                        assert((first_pair.0 + rest_acc.0).len() == first_pair.0.len()
                            + rest_acc.0.len());
                        match spec_layer_result::<B>(x, defs, ereg, ireg, level_px_hei, d2) {
                            Err(e) => {
                                assert(spec_spawn_layers::<B>(
                                    t,
                                    defs,
                                    ereg,
                                    ireg,
                                    level_px_hei,
                                    d,
                                ) == Err::<(Seq<LayerModel<B>>, Seq<EntityModel<B>>), SpawnError>(
                                    e,
                                ));
                            },
                            Ok(xp) => {
                                assert(first_pair.0 + (rest_acc.0 + xp.0) =~= (first_pair.0
                                    + rest_acc.0) + xp.0);
                                assert(first_pair.1 + (rest_acc.1 + xp.1) =~= (first_pair.1
                                    + rest_acc.1) + xp.1);
                                assert(spec_spawn_layers::<B>(
                                    t.drop_first(),
                                    defs,
                                    ereg,
                                    ireg,
                                    level_px_hei,
                                    d1,
                                ) == Ok::<_, SpawnError>((rest_acc.0 + xp.0, rest_acc.1 + xp.1)));
                                assert(spec_spawn_layers::<B>(t, defs, ereg, ireg, level_px_hei, d)
                                    == Ok::<_, SpawnError>(
                                    (
                                        first_pair.0 + (rest_acc.0 + xp.0),
                                        first_pair.1 + (rest_acc.1 + xp.1),
                                    ),
                                ));
                                assert(spec_spawn_step::<B>(
                                    spec_spawn_layers::<B>(s, defs, ereg, ireg, level_px_hei, d),
                                    x,
                                    defs,
                                    ereg,
                                    ireg,
                                    level_px_hei,
                                    d,
                                ) == Ok::<_, SpawnError>(
                                    (
                                        (first_pair.0 + rest_acc.0) + xp.0,
                                        (first_pair.1 + rest_acc.1) + xp.1,
                                    ),
                                ));
                            },
                        }
                    },
                }
            },
        }
    }
}

/// Once a prefix of the layers fails, the whole sequence fails the same way.
proof fn lemma_spawn_layers_err_prefix<B>(
    layers: Seq<LayerInstance>,
    k: int,
    defs: Seq<TilesetDefinition>,
    ereg: EntityRegistry<B>,
    ireg: IntCellRegistry<B>,
    level_px_hei: int,
    d: int,
)
    requires
        0 <= k <= layers.len(),
        spec_spawn_layers(layers.take(k), defs, ereg, ireg, level_px_hei, d) is Err,
    ensures
        spec_spawn_layers(layers, defs, ereg, ireg, level_px_hei, d) == spec_spawn_layers(
            layers.take(k),
            defs,
            ereg,
            ireg,
            level_px_hei,
            d,
        ),
    decreases layers.len() - k,
{
    if k < layers.len() {
        assert(layers.take(k + 1) =~= layers.take(k).push(layers[k]));
        lemma_spawn_layers_push(layers.take(k), layers[k], defs, ereg, ireg, level_px_hei, d);
        lemma_spawn_layers_err_prefix(layers, k + 1, defs, ereg, ireg, level_px_hei, d);
    } else {
        assert(layers.take(k) =~= layers);
    }
}

/// What one layer contributes carries consecutive depths from where it
/// starts.
proof fn lemma_layer_result_depths<B>(
    layer: LayerInstance,
    defs: Seq<TilesetDefinition>,
    ereg: EntityRegistry<B>,
    ireg: IntCellRegistry<B>,
    level_px_hei: int,
    d: int,
)
    requires
        spec_layer_result(layer, defs, ereg, ireg, level_px_hei, d) is Ok,
    ensures
        forall|i: int|
            0 <= i < spec_layer_result(layer, defs, ereg, ireg, level_px_hei, d)->Ok_0.0.len()
                ==> (#[trigger] spec_layer_result(layer, defs, ereg, ireg, level_px_hei, d)
                ->Ok_0.0[i]).depth == d + i,
{
}

/// The sub-layer depths of a spawn pass are consecutive from its starting
/// depth.
proof fn lemma_spawn_layers_depths<B>(
    layers: Seq<LayerInstance>,
    defs: Seq<TilesetDefinition>,
    ereg: EntityRegistry<B>,
    ireg: IntCellRegistry<B>,
    level_px_hei: int,
    d: int,
)
    requires
        spec_spawn_layers(layers, defs, ereg, ireg, level_px_hei, d) is Ok,
    ensures
        forall|i: int|
            0 <= i < spec_spawn_layers(layers, defs, ereg, ireg, level_px_hei, d)->Ok_0.0.len()
                ==> (#[trigger] spec_spawn_layers(layers, defs, ereg, ireg, level_px_hei, d)
                ->Ok_0.0[i]).depth == d + i,
    decreases layers.len(),
{
    if layers.len() > 0 {
        let first_pair = spec_layer_result::<B>(
            layers.first(),
            defs,
            ereg,
            ireg,
            level_px_hei,
            d,
        )->Ok_0;
        let d1 = d + first_pair.0.len();
        lemma_layer_result_depths(layers.first(), defs, ereg, ireg, level_px_hei, d);
        lemma_spawn_layers_depths(layers.drop_first(), defs, ereg, ireg, level_px_hei, d1);
    }
}

/// What one layer contributes stays within its depth budget.
proof fn lemma_layer_result_budget<B>(
    layer: LayerInstance,
    defs: Seq<TilesetDefinition>,
    ereg: EntityRegistry<B>,
    ireg: IntCellRegistry<B>,
    level_px_hei: int,
    d: int,
)
    requires
        spec_layer_result(layer, defs, ereg, ireg, level_px_hei, d) is Ok,
    ensures
        spec_layer_result(layer, defs, ereg, ireg, level_px_hei, d)->Ok_0.0.len()
            <= spec_layer_budget(layer),
{
    if !(layer.layer_instance_type is Entities) {
        lemma_partition_count(layer.grid_tiles@ + layer.auto_layer_tiles@);
    }
}

/// Processes one layer at the given depth: entity placements for an entities
/// layer, one sub-layer placement per tile partition otherwise.
fn process_layer<B: Copy>(
    layer: &LayerInstance,
    tileset_definitions: &TilesetDefinitions,
    entity_registry: &EntityRegistry<B>,
    int_cell_registry: &IntCellRegistry<B>,
    level_px_hei: i32,
    depth: usize,
) -> (r: Result<(Vec<LayerPlacement<B>>, Vec<EntityPlacement<B>>), SpawnError>)
    requires
        layer_wf(*layer),
        depth + spec_layer_budget(*layer) <= usize::MAX,
    ensures
        match r {
            Ok(pair) => spec_layer_result(
                *layer,
                tileset_definitions.defs@,
                *entity_registry,
                *int_cell_registry,
                level_px_hei as int,
                depth as int,
            ) matches Ok(m) && layer_placements_match(pair.0@, m.0) && entity_placements_match(
                pair.1@,
                m.1,
            ),
            Err(e) => spec_layer_result(
                *layer,
                tileset_definitions.defs@,
                *entity_registry,
                *int_cell_registry,
                level_px_hei as int,
                depth as int,
            ) == Err::<(Seq<LayerModel<B>>, Seq<EntityModel<B>>), SpawnError>(e),
        },
{
    let ghost defs = tileset_definitions.defs@;
    if layer.layer_instance_type == Type::Entities {
        let ghost ems = spec_entity_models::<B>(
            *layer,
            defs,
            *entity_registry,
            level_px_hei as int,
            depth as int,
        );
        let mut entities: Vec<EntityPlacement<B>> = Vec::new();
        let mut j: usize = 0;
        while j < layer.entity_instances.len()
            invariant
                0 <= j <= layer.entity_instances@.len(),
                defs == tileset_definitions.defs@,
                ems == spec_entity_models::<B>(
                    *layer,
                    defs,
                    *entity_registry,
                    level_px_hei as int,
                    depth as int,
                ),
                entities@.len() == j,
                forall|x: int| 0 <= x < j ==> entity_placement_matches(
                    #[trigger] entities@[x],
                    ems[x],
                ),
            decreases layer.entity_instances@.len() - j,
        {
            let e = &layer.entity_instances[j];
            let tileset = match &e.tile {
                Some(t) => tileset_definitions.get(t.tileset_uid),
                None => None,
            };
            let behavior = entity_registry.resolve(&layer.identifier, &e.identifier);
            let placement = EntityPlacement {
                identifier: e.identifier.clone(),
                translation_x: e.px_x,
                translation_y: level_px_hei as i64 - e.px_y as i64,
                depth,
                tileset,
                behavior,
            };
            proof {
                assert(entity_placement_matches(placement, ems[j as int]));
            }
            entities.push(placement);
            j += 1;
        }
        let placements: Vec<LayerPlacement<B>> = Vec::new();
        proof {
            assert(placements@ =~= Seq::<LayerPlacement<B>>::empty());
            assert(entity_placements_match(entities@, ems));
        }
        Ok((placements, entities))
    } else {
        let ghost w = layer.c_wid as int;
        let ghost h = layer.c_hei as int;
        // resolve the tileset binding; a bound uid must be known
        let tsd: Option<TilesetDefinition> = match layer.tileset_def_uid {
            Some(uid) => match tileset_definitions.get(uid) {
                Some(d) => Some(d),
                None => {
                    return Err(SpawnError::MissingTilesetDefinition(uid));
                },
            },
            None => None,
        };
        let is_int_grid = layer.layer_instance_type == Type::IntGrid;
        let unbound = tsd.is_none();
        proof {
            assert((layer.c_wid as u64) * (layer.c_hei as u64) == w * h && w * h
                <= 0x7FFF_FFFFu64 * 0x7FFF_FFFFu64) by (nonlinear_arith)
                requires
                    0 <= layer.c_wid <= 0x7FFF_FFFF,
                    0 <= layer.c_hei <= 0x7FFF_FFFF,
                    w == layer.c_wid as int,
                    h == layer.c_hei as int,
            ;
        }
        // an unbound int-grid layer requires the whole array inside the grid
        if is_int_grid && unbound {
            let cell_count: u64 = (layer.c_wid as u64) * (layer.c_hei as u64);
            if layer.int_grid_csv.len() as u64 > cell_count {
                return Err(SpawnError::CsvIndexOutOfBounds);
            }
        }
        // semantic markers for int-grid layers
        let ghost markers_result = spec_int_cell_models::<B>(*layer, *int_cell_registry);
        let mut int_cells: Vec<IntCellPlacement<B>> = Vec::new();
        if is_int_grid {
            match nonzero_cells(&layer.int_grid_csv, layer.c_wid as u32, layer.c_hei as u32) {
                Err(e) => {
                    return Err(e);
                },
                Ok(cells) => {
                    let ghost markers = markers_result->Ok_0;
                    proof {
                        crate::int_grid::lemma_nonzero_cells_in_bounds(layer.int_grid_csv@, w, h);
                        assert(markers.len() == cells@.len());
                    }
                    let mut x: usize = 0;
                    while x < cells.len()
                        invariant
                            0 <= x <= cells@.len(),
                            w == layer.c_wid as int,
                            h == layer.c_hei as int,
                            layer_wf(*layer),
                            spec_nonzero_cells(layer.int_grid_csv@, w, h) == Ok::<_, SpawnError>(
                                cells@,
                            ),
                            markers_result == spec_int_cell_models::<B>(
                                *layer,
                                *int_cell_registry,
                            ),
                            markers == markers_result->Ok_0,
                            markers.len() == cells@.len(),
                            forall|y: int| 0 <= y < cells@.len() ==> ((
                            #[trigger] cells@[y]).0.0 < w && cells@[y].0.1 < h),
                            int_cells@.len() == x,
                            forall|y: int| 0 <= y < x ==> #[trigger] int_cells@[y] == markers[y],
                        decreases cells@.len() - x,
                    {
                        let (pos, value) = cells[x];
                        proof {
                            assert((2 * pos.0 + 1) * layer.grid_size <= 2 * (layer.c_wid
                                * layer.grid_size)) by (nonlinear_arith)
                                requires
                                    0 <= pos.0,
                                    pos.0 + 1 <= layer.c_wid,
                                    layer.grid_size > 0,
                            ;
                            assert((2 * pos.1 + 1) * layer.grid_size <= 2 * (layer.c_hei
                                * layer.grid_size)) by (nonlinear_arith)
                                requires
                                    0 <= pos.1,
                                    pos.1 + 1 <= layer.c_hei,
                                    layer.grid_size > 0,
                            ;
                        }
                        let tr = tile_pos_to_translation_centered(pos, layer.grid_size);
                        let behavior = int_cell_registry.resolve(&layer.identifier, value);
                        let marker = IntCellPlacement {
                            position: pos,
                            value,
                            translation_x: tr.0,
                            translation_y: tr.1,
                            behavior,
                        };
                        proof {
                            assert(marker == markers[x as int]);
                        }
                        int_cells.push(marker);
                        x += 1;
                    }
                    proof {
                        assert(int_cells@ =~= markers);
                    }
                },
            }
        }
        // merge the manual and auto tile lists
        let mut merged: Vec<TileInstance> = Vec::new();
        let mut a: usize = 0;
        while a < layer.grid_tiles.len()
            invariant
                0 <= a <= layer.grid_tiles@.len(),
                merged@ == layer.grid_tiles@.take(a as int),
            decreases layer.grid_tiles@.len() - a,
        {
            merged.push(layer.grid_tiles[a]);
            proof {
                assert(merged@ =~= layer.grid_tiles@.take(a + 1));
            }
            a += 1;
        }
        proof {
            assert(layer.grid_tiles@.take(layer.grid_tiles@.len() as int) =~= layer.grid_tiles@);
            assert(merged@ + layer.auto_layer_tiles@.take(0) =~= layer.grid_tiles@);
        }
        let mut b: usize = 0;
        while b < layer.auto_layer_tiles.len()
            invariant
                0 <= b <= layer.auto_layer_tiles@.len(),
                merged@ == layer.grid_tiles@ + layer.auto_layer_tiles@.take(b as int),
            decreases layer.auto_layer_tiles@.len() - b,
        {
            merged.push(layer.auto_layer_tiles[b]);
            proof {
                assert(merged@ =~= layer.grid_tiles@ + layer.auto_layer_tiles@.take(b + 1));
            }
            b += 1;
        }
        proof {
            assert(layer.auto_layer_tiles@.take(layer.auto_layer_tiles@.len() as int)
                =~= layer.auto_layer_tiles@);
        }
        let ghost merged_seq = merged@;
        let ghost parts = spec_partition(merged_seq);
        proof {
            lemma_partition_count(merged_seq);
        }
        let partitions = layer_grid_tiles(merged);
        let ghost lms_result = spec_tile_layer_models::<B>(
            *layer,
            tsd,
            *int_cell_registry,
            depth as int,
        );
        let ghost ms = lms_result->Ok_0;
        let ghost cells0 = if is_int_grid {
            markers_result->Ok_0
        } else {
            Seq::<IntCellPlacement<B>>::empty()
        };
        proof {
            assert(lms_result is Ok);
            assert(ms =~~= Seq::new(
                parts.len(),
                |k: int| spec_tile_layer_models::<B>(
                    *layer,
                    tsd,
                    *int_cell_registry,
                    depth as int,
                )->Ok_0[k],
            ));
            assert(ms.len() == parts.len());
            assert(int_cells@ == cells0);
        }
        let mut pending_cells: Option<Vec<IntCellPlacement<B>>> = Some(int_cells);
        let mut placements: Vec<LayerPlacement<B>> = Vec::new();
        let mut k: usize = 0;
        while k < partitions.len()
            invariant
                0 <= k <= partitions@.len(),
                w == layer.c_wid as int,
                h == layer.c_hei as int,
                layer_wf(*layer),
                depth + partitions@.len() <= usize::MAX,
                is_int_grid == (layer.layer_instance_type is IntGrid),
                unbound == (tsd is None),
                is_int_grid && unbound ==> layer.int_grid_csv@.len() <= w * h,
                merged_seq == layer.grid_tiles@ + layer.auto_layer_tiles@,
                parts == spec_partition(merged_seq),
                partitions@.map_values(|p: Vec<TileInstance>| p@) == parts,
                lms_result == spec_tile_layer_models::<B>(
                    *layer,
                    tsd,
                    *int_cell_registry,
                    depth as int,
                ),
                lms_result is Ok,
                ms == lms_result->Ok_0,
                ms.len() == parts.len(),
                k == 0 ==> (pending_cells matches Some(v) && v@ == cells0),
                is_int_grid ==> markers_result is Ok && cells0 == markers_result->Ok_0,
                !is_int_grid ==> cells0 == Seq::<IntCellPlacement<B>>::empty(),
                markers_result == spec_int_cell_models::<B>(*layer, *int_cell_registry),
                placements@.len() == k,
                forall|x: int| 0 <= x < k ==> layer_placement_matches(
                    #[trigger] placements@[x],
                    ms[x],
                ),
            decreases partitions@.len() - k,
        {
            let tiles: TileMap = if is_int_grid && unbound {
                int_grid_tile_map(&layer.int_grid_csv, layer.c_wid as u32, layer.c_hei as u32)
            } else {
                tile_lookup_map(layer.c_hei, layer.grid_size, &partitions[k])
            };
            let cells_k: Vec<IntCellPlacement<B>> = if k == 0 {
                match pending_cells.take() {
                    Some(v) => v,
                    None => {
                        proof {
                            assert(false);
                        }
                        Vec::new()
                    },
                }
            } else {
                Vec::new()
            };
            let placement = match tsd {
                Some(d) => LayerPlacement {
                    depth: depth + k,
                    tileset_uid: Some(d.uid),
                    tile_size: d.tile_grid_size,
                    texture_width: d.px_wid,
                    texture_height: d.px_hei,
                    grid_size: layer.grid_size,
                    spacing: d.spacing,
                    offset_x: layer.px_total_offset_x,
                    offset_y: -(layer.px_total_offset_y as i64),
                    scale_num: layer.grid_size,
                    scale_den: d.tile_grid_size,
                    tiles,
                    int_cells: cells_k,
                },
                None => LayerPlacement {
                    depth: depth + k,
                    tileset_uid: None,
                    tile_size: layer.grid_size,
                    texture_width: 0,
                    texture_height: 0,
                    grid_size: layer.grid_size,
                    spacing: 0,
                    offset_x: layer.px_total_offset_x,
                    offset_y: -(layer.px_total_offset_y as i64),
                    scale_num: layer.grid_size,
                    scale_den: layer.grid_size,
                    tiles,
                    int_cells: cells_k,
                },
            };
            proof {
                if is_int_grid && unbound {
                    assert(layer.c_wid as u32 as int == w && layer.c_hei as u32 as int == h);
                    assert(tiles@ == spec_int_grid_tile_map(layer.int_grid_csv@, w, h));
                } else {
                    assert(partitions@.map_values(|p: Vec<TileInstance>| p@)[k as int]
                        == partitions@[k as int]@);
                    assert(parts[k as int] == partitions@[k as int]@);
                    assert(tiles@ == spec_tile_map(
                        parts[k as int],
                        layer.c_hei as int,
                        layer.grid_size as int,
                    ));
                }
                assert(ms[k as int].tiles == (if is_int_grid && unbound {
                    spec_int_grid_tile_map(layer.int_grid_csv@, layer.c_wid as int, layer.c_hei as int)
                } else {
                    spec_tile_map(parts[k as int], layer.c_hei as int, layer.grid_size as int)
                }));
                assert(layer_placement_matches(placement, ms[k as int]));
            }
            placements.push(placement);
            k += 1;
        }
        let entities: Vec<EntityPlacement<B>> = Vec::new();
        proof {
            assert(entities@ =~= Seq::<EntityPlacement<B>>::empty());
            assert(layer_placements_match(placements@, ms));
        }
        Ok((placements, entities))
    }
}

/// Performs one level-spawn pass: processes the level's layers in reverse
/// file order, assigning each tile sub-layer the next depth index starting at
/// 0, and emits the level's placement plan; the pass either completes fully
/// or fails fast on the first data contract violation, and a failure emits
/// nothing.
pub fn spawn_level<B: Copy>(
    level: &Level,
    tileset_definitions: &TilesetDefinitions,
    entity_registry: &EntityRegistry<B>,
    int_cell_registry: &IntCellRegistry<B>,
) -> (r: Result<PlacementPlan<B>, SpawnError>)
    requires
        level_wf(*level),
        spec_level_budget(level.layer_instances@.reverse()) <= usize::MAX,
    ensures
        match r {
            Ok(plan) => spec_spawn_level(
                *level,
                *tileset_definitions,
                *entity_registry,
                *int_cell_registry,
            ) matches Ok(m) && layer_placements_match(plan.layers@, m.0)
                && entity_placements_match(plan.entities@, m.1) && (forall|i: int|
                0 <= i < plan.layers@.len() ==> (#[trigger] plan.layers@[i]).depth == i),
            Err(e) => spec_spawn_level(
                *level,
                *tileset_definitions,
                *entity_registry,
                *int_cell_registry,
            ) == Err::<(Seq<LayerModel<B>>, Seq<EntityModel<B>>), SpawnError>(e),
        },
{
    let ghost rev = level.layer_instances@.reverse();
    let ghost defs = tileset_definitions.defs@;
    let ghost hei = level.px_hei as int;
    let n = level.layer_instances.len();
    let mut layers: Vec<LayerPlacement<B>> = Vec::new();
    let mut entities: Vec<EntityPlacement<B>> = Vec::new();
    let mut depth: usize = 0;
    let ghost mut lm_acc: Seq<LayerModel<B>> = Seq::empty();
    let ghost mut em_acc: Seq<EntityModel<B>> = Seq::empty();
    let mut k: usize = 0;
    proof {
        assert(rev.take(0) =~= Seq::<LayerInstance>::empty());
        assert(rev.skip(0) =~= rev);
        assert(spec_spawn_layers::<B>(
            rev.take(0),
            defs,
            *entity_registry,
            *int_cell_registry,
            hei,
            0,
        ) == Ok::<_, SpawnError>((lm_acc, em_acc)));
    }
    while k < n
        invariant
            0 <= k <= n,
            n == level.layer_instances@.len(),
            rev == level.layer_instances@.reverse(),
            defs == tileset_definitions.defs@,
            hei == level.px_hei as int,
            level_wf(*level),
            spec_spawn_layers::<B>(
                rev.take(k as int),
                defs,
                *entity_registry,
                *int_cell_registry,
                hei,
                0,
            ) == Ok::<_, SpawnError>((lm_acc, em_acc)),
            layer_placements_match(layers@, lm_acc),
            entity_placements_match(entities@, em_acc),
            depth as int == lm_acc.len(),
            depth + spec_level_budget(rev.skip(k as int)) <= usize::MAX,
        decreases n - k,
    {
        let idx = n - 1 - k;
        let layer = &level.layer_instances[idx];
        proof {
            assert(rev[k as int] == level.layer_instances@[idx as int]);
            assert(layer_wf(*layer));
            assert(rev.skip(k as int).first() == rev[k as int]);
            assert(rev.skip(k as int).drop_first() =~= rev.skip(k + 1));
            lemma_level_budget_nonneg(rev.skip(k + 1));
            assert(depth + spec_layer_budget(*layer) <= usize::MAX);
            assert(rev.take(k + 1) =~= rev.take(k as int).push(rev[k as int]));
            lemma_spawn_layers_push::<B>(
                rev.take(k as int),
                rev[k as int],
                defs,
                *entity_registry,
                *int_cell_registry,
                hei,
                0,
            );
        }
        match process_layer(
            layer,
            tileset_definitions,
            entity_registry,
            int_cell_registry,
            level.px_hei,
            depth,
        ) {
            Err(e) => {
                proof {
                    assert(spec_spawn_layers::<B>(
                        rev.take(k + 1),
                        defs,
                        *entity_registry,
                        *int_cell_registry,
                        hei,
                        0,
                    ) == Err::<(Seq<LayerModel<B>>, Seq<EntityModel<B>>), SpawnError>(e));
                    lemma_spawn_layers_err_prefix::<B>(
                        rev,
                        k + 1,
                        defs,
                        *entity_registry,
                        *int_cell_registry,
                        hei,
                        0,
                    );
                }
                return Err(e);
            },
            Ok(pair) => {
                let (mut lp, mut ep) = pair;
                let ghost pm = spec_layer_result::<B>(
                    rev[k as int],
                    defs,
                    *entity_registry,
                    *int_cell_registry,
                    hei,
                    depth as int,
                )->Ok_0;
                proof {
                    lemma_layer_result_budget::<B>(
                        rev[k as int],
                        defs,
                        *entity_registry,
                        *int_cell_registry,
                        hei,
                        depth as int,
                    );
                    assert(lp@.len() == pm.0.len());
                    assert(depth + lp@.len() + spec_level_budget(rev.skip(k + 1)) <= usize::MAX);
                }
                let new_depth = depth + lp.len();
                layers.append(&mut lp);
                entities.append(&mut ep);
                proof {
                    lm_acc = lm_acc + pm.0;
                    em_acc = em_acc + pm.1;
                    assert(spec_spawn_layers::<B>(
                        rev.take(k + 1),
                        defs,
                        *entity_registry,
                        *int_cell_registry,
                        hei,
                        0,
                    ) == Ok::<_, SpawnError>((lm_acc, em_acc)));
                    assert(layer_placements_match(layers@, lm_acc));
                    assert(entity_placements_match(entities@, em_acc));
                }
                depth = new_depth;
            },
        }
        k += 1;
    }
    proof {
        assert(rev.take(n as int) =~= rev);
        lemma_spawn_layers_depths::<B>(
            rev,
            defs,
            *entity_registry,
            *int_cell_registry,
            hei,
            0,
        );
    }
    Ok(PlacementPlan { layers, entities })
}

} // verus!
