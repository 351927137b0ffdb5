//! Tile makers: lookups from tile position to visual tile data.
//!
//! A tile maker answers, for each tile position of a sub-layer, whether a
//! tile stands there and with which texture index and flip flags. Tile
//! bundle makers wrap the answer for batch spawning, and the int-grid maker
//! gates it by the layer's int-grid values.

use vstd::prelude::*;
use crate::coords::{
    pixel_to_tile_pos, spec_pixel_to_tile_pos, spec_tile_pos_to_csv_index, TilePos,
};
use crate::error::SpawnError;
use crate::ldtk::TileInstance;

verus! {

/// Visual tile data: texture index within the tileset, decoded flip flags,
/// and visibility (int-grid placeholder tiles are invisible).
#[derive(Clone, Copy, PartialEq, Eq, Structural, Debug)]
pub struct Tile {
    pub texture_index: i32,
    pub flip_x: bool,
    pub flip_y: bool,
    pub visible: bool,
}

/// A tile together with the rest of what a spawned cell carries; bundle
/// makers hand these to the batch spawner.
#[derive(Clone, Copy, PartialEq, Eq, Structural, Debug)]
pub struct TileBundle {
    pub tile: Tile,
}

/// Decoded flip flags of a tile instance's flip code: 0 none, 1 horizontal,
/// 2 vertical, 3 both; any other code means no flip.
pub open spec fn spec_decode_flip(f: int) -> (bool, bool) {
    if f == 1 {
        (true, false)
    } else if f == 2 {
        (false, true)
    } else if f == 3 {
        (true, true)
    } else {
        (false, false)
    }
}

/// Decodes a tile instance's flip code into `(flip_x, flip_y)`.
pub fn decode_flip(f: i32) -> (r: (bool, bool))
    ensures
        r == spec_decode_flip(f as int),
{
    match f {
        1 => (true, false),
        2 => (false, true),
        3 => (true, true),
        _ => (false, false),
    }
}

/// The flip decode table, exhaustive over the four flip codes.
pub proof fn lemma_flip_decode_table()
    ensures
        spec_decode_flip(0) == (false, false),
        spec_decode_flip(1) == (true, false),
        spec_decode_flip(2) == (false, true),
        spec_decode_flip(3) == (true, true),
{
}

/// The visual tile of a tile instance: its tileset index and decoded flips.
pub open spec fn spec_visual_tile(t: TileInstance) -> Tile {
    Tile {
        texture_index: t.t,
        flip_x: spec_decode_flip(t.f as int).0,
        flip_y: spec_decode_flip(t.f as int).1,
        visible: true,
    }
}

/// The invisible placeholder tile used for int-grid layers without bound
/// tileset visuals.
pub open spec fn spec_invisible_tile() -> Tile {
    Tile { texture_index: 0, flip_x: false, flip_y: false, visible: false }
}

/// A tile maker that always returns an invisible tile; used for spawning
/// int-grid layers without auto-tile visuals.
pub fn tile_pos_to_invisible_tile(_pos: TilePos) -> (r: Option<Tile>)
    ensures
        r == Some(spec_invisible_tile()),
{
    Some(Tile { texture_index: 0, flip_x: false, flip_y: false, visible: false })
}

/// The mapping denoted by an association list, later entries overriding
/// earlier ones.
pub open spec fn entries_to_map(s: Seq<(TilePos, Tile)>) -> Map<TilePos, Tile>
    decreases s.len(),
{
    if s.len() == 0 {
        Map::empty()
    } else {
        entries_to_map(s.drop_last()).insert(s.last().0, s.last().1)
    }
}

/// True when no two entries of `s` share a tile position.
pub open spec fn unique_keys(s: Seq<(TilePos, Tile)>) -> bool {
    forall|i: int, j: int| 0 <= i < j < s.len() ==> (#[trigger] s[i]).0 != (#[trigger] s[j]).0
}

proof fn lemma_entries_contains(s: Seq<(TilePos, Tile)>, pos: TilePos)
    ensures
        entries_to_map(s).contains_key(pos) <==> exists|j: int|
            0 <= j < s.len() && (#[trigger] s[j]).0 == pos,
    decreases s.len(),
{
    if s.len() > 0 {
        lemma_entries_contains(s.drop_last(), pos);
        if entries_to_map(s).contains_key(pos) && s.last().0 != pos {
            let j = choose|j: int| 0 <= j < s.len() - 1 && (#[trigger] s.drop_last()[j]).0 == pos;
            assert(s[j].0 == pos);
        }
        if exists|j: int| 0 <= j < s.len() && (#[trigger] s[j]).0 == pos {
            let j = choose|j: int| 0 <= j < s.len() && (#[trigger] s[j]).0 == pos;
            if j < s.len() - 1 {
                assert(s.drop_last()[j].0 == pos);
            }
        }
    }
}

proof fn lemma_entries_value(s: Seq<(TilePos, Tile)>, j: int)
    requires
        unique_keys(s),
        0 <= j < s.len(),
    ensures
        entries_to_map(s).contains_key(s[j].0),
        entries_to_map(s)[s[j].0] == s[j].1,
    decreases s.len(),
{
    if j < s.len() - 1 {
        assert(s.drop_last()[j] == s[j]);
        lemma_entries_value(s.drop_last(), j);
        assert(s.last().0 != s[j].0);
    }
}

/// Overwriting the entry at `j` updates the denoted mapping at that key.
proof fn lemma_entries_update(s: Seq<(TilePos, Tile)>, j: int, v: Tile)
    requires
        unique_keys(s),
        0 <= j < s.len(),
    ensures
        entries_to_map(s.update(j, (s[j].0, v))) == entries_to_map(s).insert(s[j].0, v),
    decreases s.len(),
{
    let pos = s[j].0;
    let t = s.update(j, (pos, v));
    if j == s.len() - 1 {
        assert(t.drop_last() =~= s.drop_last());
        assert(entries_to_map(t) == entries_to_map(s.drop_last()).insert(pos, v));
        assert(entries_to_map(s.drop_last()).insert(pos, s[j].1).insert(pos, v)
            =~= entries_to_map(s.drop_last()).insert(pos, v));
    } else {
        assert(s.drop_last()[j] == s[j]);
        lemma_entries_update(s.drop_last(), j, v);
        assert(t.drop_last() =~= s.drop_last().update(j, (pos, v)));
        assert(t.last() == s.last());
        assert(s.last().0 != pos);
        assert(entries_to_map(s.drop_last()).insert(pos, v).insert(s.last().0, s.last().1)
            =~= entries_to_map(s.drop_last()).insert(s.last().0, s.last().1).insert(pos, v));
    }
}

/// A lookup from tile position to visual tile data, with unique keys.
pub struct TileMap {
    entries: Vec<(TilePos, Tile)>,
}

impl View for TileMap {
    type V = Map<TilePos, Tile>;

    closed spec fn view(&self) -> Map<TilePos, Tile> {
        entries_to_map(self.entries@)
    }
}

impl TileMap {
    #[verifier::type_invariant]
    spec fn inv(self) -> bool {
        unique_keys(self.entries@)
    }

    /// The tile stored at a position, if any.
    pub fn get(&self, pos: TilePos) -> (r: Option<Tile>)
        ensures
            r == if self@.contains_key(pos) {
                Some(self@[pos])
            } else {
                None::<Tile>
            },
    {
        proof {
            use_type_invariant(self);
            lemma_entries_contains(self.entries@, pos);
        }
        let mut k: usize = 0;
        while k < self.entries.len()
            invariant
                0 <= k <= self.entries@.len(),
                forall|j: int| 0 <= j < k ==> (#[trigger] self.entries@[j]).0 != pos,
                unique_keys(self.entries@),
                self@ == entries_to_map(self.entries@),
            decreases self.entries@.len() - k,
        {
            if self.entries[k].0 == pos {
                proof {
                    lemma_entries_value(self.entries@, k as int);
                }
                return Some(self.entries[k].1);
            }
            k += 1;
        }
        proof {
            lemma_entries_contains(self.entries@, pos);
        }
        None
    }

    /// The entries of the lookup: each pairs a position with its tile, no
    /// position repeats, and together they are exactly the mapping.
    pub fn entries(&self) -> (r: &Vec<(TilePos, Tile)>)
        ensures
            unique_keys(r@),
            forall|j: int| 0 <= j < r@.len() ==> self@.contains_key((#[trigger] r@[j]).0)
                && self@[r@[j].0] == r@[j].1,
            forall|pos: TilePos| self@.contains_key(pos) ==> exists|j: int|
                0 <= j < r@.len() && (#[trigger] r@[j]).0 == pos,
    {
        proof {
            use_type_invariant(self);
            assert forall|j: int| 0 <= j < self.entries@.len() implies self@.contains_key(
                (#[trigger] self.entries@[j]).0,
            ) && self@[self.entries@[j].0] == self.entries@[j].1 by {
                lemma_entries_value(self.entries@, j);
            }
            assert forall|pos: TilePos| self@.contains_key(pos) implies exists|j: int|
                0 <= j < self.entries@.len() && (#[trigger] self.entries@[j]).0 == pos by {
                lemma_entries_contains(self.entries@, pos);
            }
        }
        &self.entries
    }
}

/// The mapping from tile position to visual tile denoted by a layer's tile
/// list: each instance lands on the cell containing its pixel position, a
/// later instance overriding an earlier one on the same cell, and instances
/// outside the layer land nowhere.
pub open spec fn spec_tile_map(
    tiles: Seq<TileInstance>,
    layer_height_in_tiles: int,
    layer_grid_size: int,
) -> Map<TilePos, Tile>
    decreases tiles.len(),
{
    if tiles.len() == 0 {
        Map::empty()
    } else {
        let m = spec_tile_map(tiles.drop_last(), layer_height_in_tiles, layer_grid_size);
        match spec_pixel_to_tile_pos(
            tiles.last().px_x as int,
            tiles.last().px_y as int,
            layer_grid_size,
            layer_height_in_tiles,
        ) {
            Some(pos) => m.insert(pos, spec_visual_tile(tiles.last())),
            None => m,
        }
    }
}

/// A tile maker: answers, per tile position, the visual tile standing there.
pub enum TileMaker {
    /// The tileset visuals of a layer's tile list.
    Lookup(TileMap),
    /// An invisible placeholder at every position.
    Invisible,
}

impl TileMaker {
    /// The tile this maker produces at a position.
    pub open spec fn spec_make(self, pos: TilePos) -> Option<Tile> {
        match self {
            TileMaker::Lookup(m) => if m@.contains_key(pos) {
                Some(m@[pos])
            } else {
                None
            },
            TileMaker::Invisible => Some(spec_invisible_tile()),
        }
    }

    /// Produces the tile standing at a position, if any.
    pub fn make_tile(&self, pos: TilePos) -> (r: Option<Tile>)
        ensures
            r == self.spec_make(pos),
    {
        match self {
            TileMaker::Lookup(m) => m.get(pos),
            TileMaker::Invisible => tile_pos_to_invisible_tile(pos),
        }
    }
}

fn find_key(entries: &Vec<(TilePos, Tile)>, pos: TilePos) -> (r: Option<usize>)
    ensures
        match r {
            Some(j) => j < entries@.len() && entries@[j as int].0 == pos,
            None => forall|j: int| 0 <= j < entries@.len() ==> (#[trigger] entries@[j]).0 != pos,
        },
{
    let mut k: usize = 0;
    while k < entries.len()
        invariant
            0 <= k <= entries@.len(),
            forall|j: int| 0 <= j < k ==> (#[trigger] entries@[j]).0 != pos,
        decreases entries@.len() - k,
    {
        if entries[k].0 == pos {
            return Some(k);
        }
        k += 1;
    }
    None
}

/// Builds the lookup from tile position to visual tile denoted by a layer's
/// tile list. Same-cell collisions must have been partitioned away
/// beforehand; a later instance on the same cell overrides an earlier one.
pub fn tile_lookup_map(
    layer_height_in_tiles: i32,
    layer_grid_size: i32,
    grid_tiles: &Vec<TileInstance>,
) -> (r: TileMap)
    requires
        layer_height_in_tiles >= 0,
        layer_grid_size > 0,
    ensures
        r@ == spec_tile_map(grid_tiles@, layer_height_in_tiles as int, layer_grid_size as int),
{
    let mut entries: Vec<(TilePos, Tile)> = Vec::new();
    let mut i: usize = 0;
    while i < grid_tiles.len()
        invariant
            0 <= i <= grid_tiles@.len(),
            layer_height_in_tiles >= 0,
            layer_grid_size > 0,
            unique_keys(entries@),
            entries_to_map(entries@) == spec_tile_map(
                grid_tiles@.take(i as int),
                layer_height_in_tiles as int,
                layer_grid_size as int,
            ),
        decreases grid_tiles@.len() - i,
    {
        let t = grid_tiles[i];
        proof {
            assert(grid_tiles@.take(i + 1).drop_last() =~= grid_tiles@.take(i as int));
            assert(grid_tiles@.take(i + 1).last() == t);
        }
        match pixel_to_tile_pos(t.px_x, t.px_y, layer_grid_size, layer_height_in_tiles) {
            Some(pos) => {
                let flips = decode_flip(t.f);
                let tile = Tile {
                    texture_index: t.t,
                    flip_x: flips.0,
                    flip_y: flips.1,
                    visible: true,
                };
                let ghost old_entries = entries@;
                match find_key(&entries, pos) {
                    Some(j) => {
                        proof {
                            lemma_entries_update(entries@, j as int, tile);
                        }
                        entries[j] = (pos, tile);
                        proof {
                            assert(entries@ == old_entries.update(j as int, (pos, tile)));
                            assert forall|a: int, b: int| 0 <= a < b < entries@.len() implies (
                            #[trigger] entries@[a]).0 != (#[trigger] entries@[b]).0 by {
                                assert(old_entries[a].0 != old_entries[b].0);
                                if a == j {
                                    assert(old_entries[a].0 == pos);
                                }
                                if b == j {
                                    assert(old_entries[b].0 == pos);
                                }
                            }
                        }
                    },
                    None => {
                        entries.push((pos, tile));
                        proof {
                            assert(entries@.drop_last() =~= old_entries);
                            assert(entries@.last() == (pos, tile));
                            assert forall|a: int, b: int| 0 <= a < b < entries@.len() implies (
                            #[trigger] entries@[a]).0 != (#[trigger] entries@[b]).0 by {
                                if b == entries@.len() - 1 {
                                    assert(old_entries[a].0 != pos);
                                } else {
                                    assert(old_entries[a].0 != old_entries[b].0);
                                }
                            }
                        }
                    },
                }
            },
            None => {},
        }
        i += 1;
    }
    proof {
        assert(grid_tiles@.take(grid_tiles@.len() as int) =~= grid_tiles@);
    }
    TileMap { entries }
}

/// Creates a tile maker that matches the tileset visuals of a layer's tile
/// list; used for spawning tile, auto-tile and int-grid layers with
/// auto-tile visuals. Same-cell collisions must have been partitioned away
/// beforehand; a later instance on the same cell overrides an earlier one.
pub fn tile_pos_to_tile_maker(
    layer_height_in_tiles: i32,
    layer_grid_size: i32,
    grid_tiles: Vec<TileInstance>,
) -> (r: TileMaker)
    requires
        layer_height_in_tiles >= 0,
        layer_grid_size > 0,
    ensures
        r matches TileMaker::Lookup(m) && m@ == spec_tile_map(
            grid_tiles@,
            layer_height_in_tiles as int,
            layer_grid_size as int,
        ),
{
    TileMaker::Lookup(tile_lookup_map(layer_height_in_tiles, layer_grid_size, &grid_tiles))
}

/// A tile bundle maker: bundles whatever a tile maker produces.
pub struct TileBundleMaker {
    pub tile_maker: TileMaker,
}

impl TileBundleMaker {
    /// The bundle this maker produces at a position.
    pub open spec fn spec_make(self, pos: TilePos) -> Option<TileBundle> {
        match self.tile_maker.spec_make(pos) {
            Some(t) => Some(TileBundle { tile: t }),
            None => None,
        }
    }

    /// Produces the bundled tile standing at a position, if any.
    pub fn make_bundle(&self, pos: TilePos) -> (r: Option<TileBundle>)
        ensures
            r == self.spec_make(pos),
    {
        match self.tile_maker.make_tile(pos) {
            Some(t) => Some(TileBundle { tile: t }),
            None => None,
        }
    }
}

/// Returns a tile bundle maker that bundles the results of the provided tile
/// maker; used for spawning tile, auto-tile, and int-grid layers with
/// auto-tile visuals.
pub fn tile_pos_to_tile_bundle_maker(tile_maker: TileMaker) -> (r: TileBundleMaker)
    ensures
        r == (TileBundleMaker { tile_maker }),
{
    TileBundleMaker { tile_maker }
}

/// True when the position lies in the `width * height` cell grid and the
/// int-grid value at its CSV index is present and non-zero.
pub open spec fn spec_int_grid_gate(csv: Seq<i32>, width: int, height: int, pos: TilePos) -> bool {
    let idx = spec_tile_pos_to_csv_index(pos, width, height);
    &&& pos.0 < width
    &&& pos.1 < height
    &&& idx < csv.len()
    &&& csv[idx] != 0
}

/// Gates a tile maker by a layer's int-grid: a bundle is produced at a
/// position exactly when the int-grid value at the position's CSV index is
/// non-zero.
pub struct IntGridMaker {
    pub tile_maker: TileMaker,
    pub int_grid_csv: Vec<i32>,
    pub layer_width_in_tiles: u32,
    pub layer_height_in_tiles: u32,
}

impl IntGridMaker {
    /// True when the int-grid value at the position's CSV index is non-zero.
    pub open spec fn spec_gate(self, pos: TilePos) -> bool {
        spec_int_grid_gate(
            self.int_grid_csv@,
            self.layer_width_in_tiles as int,
            self.layer_height_in_tiles as int,
            pos,
        )
    }

    /// The bundle this maker produces at a position.
    pub open spec fn spec_make(self, pos: TilePos) -> Option<TileBundle> {
        if self.spec_gate(pos) {
            match self.tile_maker.spec_make(pos) {
                Some(t) => Some(TileBundle { tile: t }),
                None => None,
            }
        } else {
            None
        }
    }

    /// Produces the bundled tile standing at a position, if the int-grid
    /// value there is non-zero.
    pub fn make_bundle(&self, pos: TilePos) -> (r: Option<TileBundle>)
        ensures
            r == self.spec_make(pos),
    {
        if pos.0 < self.layer_width_in_tiles && pos.1 < self.layer_height_in_tiles {
            let row_top_down: u64 = (self.layer_height_in_tiles - pos.1 - 1) as u64;
            proof {
                assert(row_top_down * (self.layer_width_in_tiles as u64) + pos.0 <= (
                0xFFFF_FFFFu64 * 0xFFFF_FFFFu64 + 0xFFFF_FFFFu64)) by (nonlinear_arith)
                    requires
                        0 <= row_top_down <= 0xFFFF_FFFFu64,
                        0 <= self.layer_width_in_tiles <= 0xFFFF_FFFFu64,
                        0 <= pos.0 <= 0xFFFF_FFFFu64,
                ;
            }
            let idx64: u64 = row_top_down * (self.layer_width_in_tiles as u64) + pos.0 as u64;
            assert(idx64 == spec_tile_pos_to_csv_index(
                pos,
                self.layer_width_in_tiles as int,
                self.layer_height_in_tiles as int,
            ));
            if idx64 < self.int_grid_csv.len() as u64 {
                let idx = idx64 as usize;
                if self.int_grid_csv[idx] != 0 {
                    match self.tile_maker.make_tile(pos) {
                        Some(t) => Some(TileBundle { tile: t }),
                        None => None,
                    }
                } else {
                    None
                }
            } else {
                None
            }
        } else {
            None
        }
    }
}

/// Returns a tile bundle maker that produces the bundled results of the
/// provided tile maker exactly where the layer's int-grid value is non-zero;
/// used for spawning int-grid layers without auto-tile visuals. Fails when
/// the int-grid array reaches outside the layer's `width * height` grid.
pub fn tile_pos_to_tile_bundle_if_int_grid_nonzero_maker(
    tile_maker: TileMaker,
    int_grid_csv: Vec<i32>,
    layer_width_in_tiles: i32,
    layer_height_in_tiles: i32,
) -> (r: Result<IntGridMaker, SpawnError>)
    requires
        layer_width_in_tiles >= 0,
        layer_height_in_tiles >= 0,
    ensures
        match r {
            Ok(m) => int_grid_csv@.len() <= layer_width_in_tiles * layer_height_in_tiles && m
                == (IntGridMaker {
                tile_maker,
                int_grid_csv,
                layer_width_in_tiles: layer_width_in_tiles as u32,
                layer_height_in_tiles: layer_height_in_tiles as u32,
            }),
            Err(e) => e == SpawnError::CsvIndexOutOfBounds && int_grid_csv@.len()
                > layer_width_in_tiles * layer_height_in_tiles,
        },
{
    proof {
        assert((layer_width_in_tiles as u64) * (layer_height_in_tiles as u64)
            == layer_width_in_tiles * layer_height_in_tiles && layer_width_in_tiles
            * layer_height_in_tiles <= 0x7FFF_FFFFu64 * 0x7FFF_FFFFu64) by (nonlinear_arith)
            requires
                0 <= layer_width_in_tiles <= 0x7FFF_FFFF,
                0 <= layer_height_in_tiles <= 0x7FFF_FFFF,
        ;
    }
    let cell_count: u64 = (layer_width_in_tiles as u64) * (layer_height_in_tiles as u64);
    if int_grid_csv.len() as u64 > cell_count {
        Err(SpawnError::CsvIndexOutOfBounds)
    } else {
        Ok(
            IntGridMaker {
                tile_maker,
                int_grid_csv,
                layer_width_in_tiles: layer_width_in_tiles as u32,
                layer_height_in_tiles: layer_height_in_tiles as u32,
            },
        )
    }
}

spec fn gate_upto(csv: Seq<i32>, width: int, height: int, n: int, pos: TilePos) -> bool {
    spec_int_grid_gate(csv, width, height, pos) && spec_tile_pos_to_csv_index(pos, width, height)
        < n
}

/// The invisible placeholder tile map of an int-grid layer without bound
/// tileset visuals: a tile stands at a position exactly when the int-grid
/// value at the position's CSV index is non-zero.
pub open spec fn spec_int_grid_tile_map(csv: Seq<i32>, width: int, height: int) -> Map<
    TilePos,
    Tile,
> {
    Map::new(
        |pos: TilePos| spec_int_grid_gate(csv, width, height, pos),
        |pos: TilePos| spec_invisible_tile(),
    )
}

/// Builds the invisible placeholder tile map of an int-grid layer without
/// bound tileset visuals: a tile stands at a position exactly when the
/// int-grid value at the position's CSV index is non-zero.
pub fn int_grid_tile_map(
    int_grid_csv: &Vec<i32>,
    layer_width_in_tiles: u32,
    layer_height_in_tiles: u32,
) -> (r: TileMap)
    requires
        int_grid_csv@.len() <= layer_width_in_tiles * layer_height_in_tiles,
    ensures
        r@ == spec_int_grid_tile_map(
            int_grid_csv@,
            layer_width_in_tiles as int,
            layer_height_in_tiles as int,
        ),
{
    let ghost w = layer_width_in_tiles as int;
    let ghost h = layer_height_in_tiles as int;
    let ghost csv = int_grid_csv@;
    let mut entries: Vec<(TilePos, Tile)> = Vec::new();
    let mut i: usize = 0;
    while i < int_grid_csv.len()
        invariant
            w == layer_width_in_tiles as int,
            h == layer_height_in_tiles as int,
            csv == int_grid_csv@,
            csv.len() <= w * h,
            0 <= i <= csv.len(),
            unique_keys(entries@),
            forall|j: int| 0 <= j < entries@.len() ==> spec_tile_pos_to_csv_index(
                (#[trigger] entries@[j]).0,
                w,
                h,
            ) < i,
            entries_to_map(entries@) == Map::new(
                |pos: TilePos| gate_upto(csv, w, h, i as int, pos),
                |pos: TilePos| spec_invisible_tile(),
            ),
        decreases csv.len() - i,
    {
        let value = int_grid_csv[i];
        let ghost old_map = entries_to_map(entries@);
        if value != 0 {
            proof {
                crate::coords::lemma_csv_index_round_trip(i as int, w, h);
            }
            match crate::coords::int_grid_index_to_tile_pos(
                i,
                layer_width_in_tiles,
                layer_height_in_tiles,
            ) {
                Some(pos) => {
                    let ghost old_entries = entries@;
                    entries.push((pos, Tile {
                        texture_index: 0,
                        flip_x: false,
                        flip_y: false,
                        visible: false,
                    }));
                    proof {
                        assert(spec_tile_pos_to_csv_index(pos, w, h) == i);
                        assert(entries@.drop_last() =~= old_entries);
                        assert(entries@.last() == (pos, spec_invisible_tile()));
                        assert forall|a: int, b: int| 0 <= a < b < entries@.len() implies (
                        #[trigger] entries@[a]).0 != (#[trigger] entries@[b]).0 by {
                            if b == entries@.len() - 1 {
                                assert(spec_tile_pos_to_csv_index(old_entries[a].0, w, h) < i);
                            } else {
                                assert(old_entries[a].0 != old_entries[b].0);
                            }
                        }
                        assert(entries_to_map(entries@) == old_map.insert(
                            pos,
                            spec_invisible_tile(),
                        ));
                        assert(entries_to_map(entries@) =~= Map::new(
                            |q: TilePos| gate_upto(csv, w, h, i + 1, q),
                            |q: TilePos| spec_invisible_tile(),
                        )) by {
                            assert forall|q: TilePos| gate_upto(csv, w, h, i + 1, q) implies (
                            gate_upto(csv, w, h, i as int, q) || q == pos) by {
                                if spec_tile_pos_to_csv_index(q, w, h) == i {
                                    crate::coords::lemma_tile_pos_round_trip(q, w, h);
                                }
                            }
                            assert(gate_upto(csv, w, h, i + 1, pos));
                        }
                    }
                },
                None => {
                    proof {
                        assert(false);
                    }
                },
            }
        } else {
            proof {
                assert(entries_to_map(entries@) =~= Map::new(
                    |q: TilePos| gate_upto(csv, w, h, i + 1, q),
                    |q: TilePos| spec_invisible_tile(),
                )) by {
                    assert forall|q: TilePos| gate_upto(csv, w, h, i + 1, q) implies gate_upto(
                        csv,
                        w,
                        h,
                        i as int,
                        q,
                    ) by {
                        if spec_tile_pos_to_csv_index(q, w, h) == i {
                            assert(csv[spec_tile_pos_to_csv_index(q, w, h)] == 0);
                        }
                    }
                }
            }
        }
        i += 1;
    }
    proof {
        assert(entries_to_map(entries@) =~= Map::new(
            |q: TilePos| spec_int_grid_gate(csv, w, h, q),
            |q: TilePos| spec_invisible_tile(),
        )) by {
            assert forall|q: TilePos| spec_int_grid_gate(csv, w, h, q) implies gate_upto(
                csv,
                w,
                h,
                i as int,
                q,
            ) by {
                assert(spec_tile_pos_to_csv_index(q, w, h) < csv.len());
            }
        }
    }
    TileMap { entries }
}

/// Int-grid gating: in the unbound fallback case (invisible placeholder
/// tiles), a tile exists at a position exactly when the int-grid value at
/// the position's CSV index is non-zero.
pub proof fn lemma_int_grid_gating(maker: IntGridMaker, pos: TilePos)
    requires
        maker.tile_maker is Invisible,
    ensures
        maker.spec_make(pos) is Some <==> maker.spec_gate(pos),
{
}

} // verus!
