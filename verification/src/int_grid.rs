//! The int-grid resolver: decodes each non-zero int-grid cell into a tile
//! position paired with its semantic value, in CSV index order.

use vstd::prelude::*;
use crate::coords::{int_grid_index_to_tile_pos, spec_csv_index_to_tile_pos, TilePos};
use crate::error::SpawnError;

verus! {

/// The non-zero cells of an int-grid array, each decoded to its tile
/// position and paired with its raw value, in CSV index order; fails exactly
/// when some non-zero entry's index lies outside the `width * height` grid.
pub open spec fn spec_nonzero_cells(csv: Seq<i32>, width: int, height: int) -> Result<
    Seq<(TilePos, i32)>,
    SpawnError,
>
    decreases csv.len(),
{
    if csv.len() == 0 {
        Ok(Seq::empty())
    } else {
        match spec_nonzero_cells(csv.drop_last(), width, height) {
            Err(e) => Err(e),
            Ok(cells) => if csv.last() == 0 {
                Ok(cells)
            } else {
                match spec_csv_index_to_tile_pos(csv.len() - 1, width, height) {
                    Some(pos) => Ok(cells.push((pos, csv.last()))),
                    None => Err(SpawnError::CsvIndexOutOfBounds),
                }
            },
        }
    }
}

/// Once a prefix of the array fails to decode, the whole array fails the
/// same way.
proof fn lemma_nonzero_cells_err_prefix(csv: Seq<i32>, i: int, width: int, height: int)
    requires
        0 <= i <= csv.len(),
        spec_nonzero_cells(csv.take(i), width, height) is Err,
    ensures
        spec_nonzero_cells(csv, width, height) == spec_nonzero_cells(csv.take(i), width, height),
    decreases csv.len() - i,
{
    if i < csv.len() {
        assert(csv.take(i + 1).drop_last() =~= csv.take(i));
        lemma_nonzero_cells_err_prefix(csv, i + 1, width, height);
    } else {
        assert(csv.take(i) =~= csv);
    }
}

/// Every decoded non-zero cell lies inside the `width * height` grid and
/// carries a non-zero value.
pub proof fn lemma_nonzero_cells_in_bounds(csv: Seq<i32>, width: int, height: int)
    requires
        spec_nonzero_cells(csv, width, height) is Ok,
        0 <= width <= u32::MAX,
        0 <= height <= u32::MAX,
    ensures
        forall|j: int|
            0 <= j < spec_nonzero_cells(csv, width, height)->Ok_0.len()
                ==> ((#[trigger] spec_nonzero_cells(csv, width, height)->Ok_0[j]).0.0 < width
                && spec_nonzero_cells(csv, width, height)->Ok_0[j].0.1 < height
                && spec_nonzero_cells(csv, width, height)->Ok_0[j].1 != 0),
    decreases csv.len(),
{
    if csv.len() > 0 {
        let pre = csv.drop_last();
        lemma_nonzero_cells_in_bounds(pre, width, height);
        let cells = spec_nonzero_cells(csv, width, height)->Ok_0;
        let pre_cells = spec_nonzero_cells(pre, width, height)->Ok_0;
        if csv.last() != 0 {
            crate::coords::lemma_csv_index_round_trip(csv.len() - 1, width, height);
            assert(cells =~= pre_cells.push(
                (spec_csv_index_to_tile_pos(csv.len() - 1, width, height)->Some_0, csv.last()),
            ));
        } else {
            assert(cells =~= pre_cells);
        }
    }
}

/// Decodes every non-zero entry of an int-grid array into its tile position
/// paired with its raw value, in CSV index order. Fails exactly when some
/// non-zero entry's index lies outside the `width * height` grid.
pub fn nonzero_cells(
    int_grid_csv: &Vec<i32>,
    layer_width_in_tiles: u32,
    layer_height_in_tiles: u32,
) -> (r: Result<Vec<(TilePos, i32)>, SpawnError>)
    ensures
        match r {
            Ok(cells) => spec_nonzero_cells(
                int_grid_csv@,
                layer_width_in_tiles as int,
                layer_height_in_tiles as int,
            ) == Ok::<_, SpawnError>(cells@),
            Err(e) => spec_nonzero_cells(
                int_grid_csv@,
                layer_width_in_tiles as int,
                layer_height_in_tiles as int,
            ) == Err::<Seq<(TilePos, i32)>, _>(e),
        },
{
    let ghost w = layer_width_in_tiles as int;
    let ghost h = layer_height_in_tiles as int;
    let mut cells: Vec<(TilePos, i32)> = Vec::new();
    let mut i: usize = 0;
    while i < int_grid_csv.len()
        invariant
            0 <= i <= int_grid_csv@.len(),
            w == layer_width_in_tiles as int,
            h == layer_height_in_tiles as int,
            spec_nonzero_cells(int_grid_csv@.take(i as int), w, h) == Ok::<_, SpawnError>(cells@),
        decreases int_grid_csv@.len() - i,
    {
        let value = int_grid_csv[i];
        proof {
            assert(int_grid_csv@.take(i + 1).drop_last() =~= int_grid_csv@.take(i as int));
            assert(int_grid_csv@.take(i + 1).last() == value);
        }
        if value != 0 {
            match int_grid_index_to_tile_pos(i, layer_width_in_tiles, layer_height_in_tiles) {
                Some(pos) => {
                    cells.push((pos, value));
                },
                None => {
                    proof {
                        let cur = int_grid_csv@.take(i + 1);
                        assert(cur.len() == i + 1);
                        assert(cur.drop_last() =~= int_grid_csv@.take(i as int));
                        assert(spec_nonzero_cells(cur.drop_last(), w, h) == Ok::<_, SpawnError>(
                            cells@,
                        ));
                        assert(cur.last() == value && value != 0);
                        assert(spec_csv_index_to_tile_pos(cur.len() - 1, w, h) is None);
                        assert(spec_nonzero_cells(cur, w, h) is Err);
                        lemma_nonzero_cells_err_prefix(int_grid_csv@, i + 1, w, h);
                    }
                    return Err(SpawnError::CsvIndexOutOfBounds);
                },
            }
        }
        i += 1;
    }
    proof {
        assert(int_grid_csv@.take(int_grid_csv@.len() as int) =~= int_grid_csv@);
    }
    Ok(cells)
}

} // verus!
