//! Errors that abort a level-spawn pass. Every fatal condition is surfaced
//! to the caller; no partially built plan is ever emitted.

use vstd::prelude::*;

verus! {

/// A data contract violation that aborts the whole level's spawn pass.
#[derive(Clone, Copy, PartialEq, Eq, Structural, Debug)]
pub enum SpawnError {
    /// An int-grid CSV index lay outside the layer's `width * height` grid.
    CsvIndexOutOfBounds,
    /// A layer referenced a tileset uid absent from the definition map.
    MissingTilesetDefinition(i32),
}

} // verus!
