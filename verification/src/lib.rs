//! Procedural voxel world generation: seeds, biomes, chunks of surface
//! heights, and the world map that holds them.

use vstd::prelude::*;

pub mod biome;
pub mod chunk;
pub mod noise;
pub mod seed;
pub mod world;

pub use biome::Biome;
pub use chunk::Chunk;
pub use noise::hash2;
pub use seed::WorldSeed;
pub use world::WorldMap;

verus! {

} // verus!
