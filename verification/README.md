# lau_worldgen

Procedural voxel world generation, verified with Verus.

- `src/seed.rs` — `WorldSeed`: FNV-1a seeds from strings, seeds drawn from
  the system clock, defaults and conversions.
- `src/noise.rs` — `hash2`, the integer lattice hash behind the noise.
- `src/biome.rs` — `Biome`, its names and surface materials.
- `src/chunk.rs` — `Chunk`, the per-biome surface height rules, chunk
  assembly and block counts.
- `src/world.rs` — `WorldMap`, chunks stored by coordinates (a vector of
  chunks indexed by a hash table of coordinate keys), lookups of world
  columns, the generation grid, and the laws that tie them together.
- `app/` — the floating-point noise (`noise2d`, `fbm`, `biome_from`),
  `WorldConfig`, `WorldGenerator` and world generation, and serde copies of
  the library's types.
