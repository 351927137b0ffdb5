//! A verified core for turning parsed LDtk level data into a placement plan:
//! ordered tile sub-layers, int-grid cell markers and entity placements,
//! ready for an external renderer or scene builder to consume.

pub mod assembly;
pub mod coords;
pub mod error;
pub mod int_grid;
pub mod ldtk;
pub mod partition;
pub mod registry;
pub mod tile_makers;
