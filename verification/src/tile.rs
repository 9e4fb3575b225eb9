//! Tiles, the commands that create and remove them, and the events that
//! tell the outside which tiles came and went.

use crate::material::MaterialType;
use vstd::prelude::*;

verus! {

/// The material a tile is made of, by registry id.
#[derive(Clone, Copy, Debug, PartialEq, Eq)]
pub struct Material {
    pub id: usize,
}

/// What the level records of a tile: its material, whether it blocks
/// movement, whether it blocks sight, and the cell it stands in.
#[derive(Clone, Copy, Debug, PartialEq, Eq)]
pub struct TileBundle {
    pub mat: Material,
    pub solid: bool,
    pub opaque: bool,
    pub pos: [usize; 3],
}

impl TileBundle {
    /// The tile of material `mat` at `position`: solid and opaque.
    pub open spec fn spec_new(position: [usize; 3], mat: usize) -> TileBundle {
        TileBundle { mat: Material { id: mat }, solid: true, opaque: true, pos: position }
    }

    /// A tile of the given material at `position`.
    pub fn new(position: [usize; 3], mat: &MaterialType) -> (t: TileBundle)
        ensures
            t == Self::spec_new(position, mat.id),
    {
        TileBundle { mat: Material { id: mat.id }, solid: true, opaque: true, pos: position }
    }
}

/// A change to the set of live tiles, for whoever keeps their visible and
/// physical counterparts.
#[derive(Clone, Copy, Debug, PartialEq, Eq)]
pub enum TileEvent {
    /// The tile `tile` came to life under identity `id`.
    Spawned { id: usize, tile: TileBundle },
    /// The tile of identity `id` is gone.
    Despawned { id: usize },
}

/// Create a tile of material `mat` at `pos`, unless the cell is taken.
#[derive(Clone, Copy, Debug, PartialEq, Eq)]
pub struct CmdSpawnTile {
    pub pos: [usize; 3],
    pub mat: usize,
}

/// Remove the tile at `pos`, if there is one.
#[derive(Clone, Copy, Debug, PartialEq, Eq)]
pub struct CmdDestroyTile {
    pub pos: [usize; 3],
}

/// Remove every tile of the box from `min` to `max`, both inclusive.
#[derive(Clone, Copy, Debug, PartialEq, Eq)]
pub struct CmdDestroyTileRect {
    pub min: [usize; 3],
    pub max: [usize; 3],
}

/// Populate the whole level from a sampled noise field. `samples` holds,
/// for each cell in ascending x, then y, then z, the bit pattern of the
/// single-precision sample taken at that cell with `seed`, remapped to
/// the unit interval.
#[derive(Debug, PartialEq, Eq)]
pub struct CmdLvlInit {
    pub seed: u64,
    pub samples: Vec<u32>,
}

/// A pending change to the level.
#[derive(Debug, PartialEq, Eq)]
pub enum Command {
    Spawn(CmdSpawnTile),
    Destroy(CmdDestroyTile),
    DestroyRect(CmdDestroyTileRect),
    Init(CmdLvlInit),
}

} // verus!
