//! A bounded voxel level: a dense grid of tile identities, the registry of
//! tile materials, the queue of deferred mutation commands that is drained
//! once per tick, and the classification of terrain samples into materials.

pub mod array;
pub mod dungeon;
pub mod error;
pub mod laws;
pub mod level;
pub mod material;
pub mod terrain;
pub mod tile;
pub mod world;
