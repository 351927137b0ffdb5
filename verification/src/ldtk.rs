//! The input data model: already-parsed level, layer, tile and definition
//! records, as the upstream level-format decoder hands them over.

use vstd::prelude::*;

verus! {

/// Kind of a layer instance.
#[derive(Clone, Copy, PartialEq, Eq, Structural, Debug)]
pub enum Type {
    IntGrid,
    Entities,
    Tiles,
    AutoLayer,
}

/// One tile in a layer's tile list: pixel position (top-left, in the layer's
/// pixel space), source position in the tileset texture, tile index `t`
/// within the tileset, and flip code `f` (0 none, 1 horizontal, 2 vertical,
/// 3 both).
#[derive(Clone, Copy, PartialEq, Eq, Structural, Debug)]
pub struct TileInstance {
    pub px_x: i32,
    pub px_y: i32,
    pub src_x: i32,
    pub src_y: i32,
    pub t: i32,
    pub f: i32,
}

/// True when two tile instances occupy the same pixel position.
pub open spec fn same_px(a: TileInstance, b: TileInstance) -> bool {
    a.px_x == b.px_x && a.px_y == b.px_y
}

/// The tileset rectangle an entity instance displays, identifying the
/// tileset it is taken from.
#[derive(Clone, Copy, PartialEq, Eq, Structural, Debug)]
pub struct TilesetRectangle {
    pub tileset_uid: i32,
}

/// One entity placed in an entities layer: its identifier, its pixel anchor
/// in level space, and the tileset rectangle it displays, if any.
pub struct EntityInstance {
    pub identifier: String,
    pub px_x: i32,
    pub px_y: i32,
    pub tile: Option<TilesetRectangle>,
}

/// One layer of a level. Layers are immutable input: never mutated, only
/// read.
pub struct LayerInstance {
    pub layer_instance_type: Type,
    pub identifier: String,
    /// Grid width in cells.
    pub c_wid: i32,
    /// Grid height in cells.
    pub c_hei: i32,
    /// Cell size in pixels.
    pub grid_size: i32,
    pub px_total_offset_x: i32,
    pub px_total_offset_y: i32,
    /// The tileset bound to this layer, if any.
    pub tileset_def_uid: Option<i32>,
    pub grid_tiles: Vec<TileInstance>,
    pub auto_layer_tiles: Vec<TileInstance>,
    /// One integer per cell in row-major order; 0 means empty.
    pub int_grid_csv: Vec<i32>,
    pub entity_instances: Vec<EntityInstance>,
}

/// A level: its pixel dimensions and its layers in file order (top-to-bottom;
/// rendering reverses them).
pub struct Level {
    pub px_wid: i32,
    pub px_hei: i32,
    pub layer_instances: Vec<LayerInstance>,
}

/// A tileset definition: unique id, texture pixel dimensions, per-tile grid
/// size and tile spacing.
#[derive(Clone, Copy, PartialEq, Eq, Structural, Debug)]
pub struct TilesetDefinition {
    pub uid: i32,
    pub px_wid: i32,
    pub px_hei: i32,
    pub tile_grid_size: i32,
    pub spacing: i32,
}

/// The tileset definition with the given uid, first match winning.
pub open spec fn spec_lookup_tileset(defs: Seq<TilesetDefinition>, uid: i32) -> Option<
    TilesetDefinition,
>
    decreases defs.len(),
{
    if defs.len() == 0 {
        None
    } else if defs.first().uid == uid {
        Some(defs.first())
    } else {
        spec_lookup_tileset(defs.drop_first(), uid)
    }
}

/// The tileset definitions of a loaded project, precomputed once and passed
/// read-only into each spawn pass.
pub struct TilesetDefinitions {
    pub defs: Vec<TilesetDefinition>,
}

impl TilesetDefinitions {
    /// The definition registered under a uid, if any.
    pub open spec fn spec_get(self, uid: i32) -> Option<TilesetDefinition> {
        spec_lookup_tileset(self.defs@, uid)
    }

    /// Looks a tileset definition up by uid.
    pub fn get(&self, uid: i32) -> (r: Option<TilesetDefinition>)
        ensures
            r == self.spec_get(uid),
    {
        let mut k: usize = 0;
        proof {
            assert(self.defs@.skip(0) =~= self.defs@);
        }
        while k < self.defs.len()
            invariant
                0 <= k <= self.defs@.len(),
                spec_lookup_tileset(self.defs@, uid) == spec_lookup_tileset(
                    self.defs@.skip(k as int),
                    uid,
                ),
            decreases self.defs@.len() - k,
        {
            proof {
                assert(self.defs@.skip(k as int).first() == self.defs@[k as int]);
                assert(self.defs@.skip(k as int).drop_first() =~= self.defs@.skip(k + 1));
            }
            if self.defs[k].uid == uid {
                return Some(self.defs[k]);
            }
            k += 1;
        }
        None
    }
}

/// Well-formedness of one layer: positive cell size, non-negative cell
/// dimensions, and a pixel extent that fits the pixel coordinate range.
pub open spec fn layer_wf(l: LayerInstance) -> bool {
    &&& l.grid_size > 0
    &&& 0 <= l.c_wid
    &&& 0 <= l.c_hei
    &&& l.c_wid * l.grid_size <= i32::MAX
    &&& l.c_hei * l.grid_size <= i32::MAX
}

/// Well-formedness of a level: every layer is well-formed.
pub open spec fn level_wf(level: Level) -> bool {
    forall|i: int| 0 <= i < level.layer_instances@.len() ==> layer_wf(
        #[trigger] level.layer_instances@[i],
    )
}

} // verus!
