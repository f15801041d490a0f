use lau_worldgen::world::chunk_grid;
use lau_worldgen::{hash2, Biome, Chunk, WorldMap};

const BIOMES: [Biome; 8] = [
    Biome::Plains,
    Biome::Forest,
    Biome::Desert,
    Biome::Mountains,
    Biome::Ocean,
    Biome::CrystalCaves,
    Biome::FloatingIslands,
    Biome::Volcanic,
];

/// A world over the chunk grid of `radius`, with hash-derived noise heights
/// and biomes standing in for the floating-point noise, at sea level 32.
fn grid_world(radius: i32) -> WorldMap {
    let mut map = WorldMap::new();
    for (cx, cz) in chunk_grid(radius) {
        let mut noise = [[0i32; 16]; 16];
        let mut biomes = [[Biome::Plains; 16]; 16];
        for lz in 0..16 {
            for lx in 0..16 {
                let wx = (cx * 16 + lx as i32) as i64;
                let wz = (cz * 16 + lz as i32) as i64;
                noise[lz][lx] = (hash2(42, wx, wz) % 64) as i32;
                biomes[lz][lx] = BIOMES[(hash2(43, wx, wz) % 8) as usize];
            }
        }
        map.insert(Chunk::from_columns(cx, cz, 32, noise, biomes));
    }
    map
}

#[test]
fn worldmap_generate() {
    let map = grid_world(2);
    // radius 2 → chunks from -2 to 2 = 5 per axis = 25 total
    assert_eq!(map.chunk_count(), 25);
}

#[test]
fn worldmap_get_height_valid() {
    let map = grid_world(1);
    let h = map.get_height(5, 5);
    assert!((0..=63).contains(&h));
}

#[test]
fn worldmap_get_height_outside_returns_zero() {
    let map = grid_world(0);
    // (100, 100) is outside radius 0
    assert_eq!(map.get_height(100, 100), 0);
}

#[test]
fn worldmap_get_biome_valid() {
    let map = grid_world(1);
    let _biome = map.get_biome(0, 0);
    // Just ensure no panic
}

#[test]
fn worldmap_total_blocks_positive() {
    let map = grid_world(1);
    assert!(map.total_blocks() > 0);
}

#[test]
fn worldmap_chunks_stored_under_own_coordinates() {
    let map = grid_world(2);
    for cz in -3..=3 {
        for cx in -3..=3 {
            match map.get_chunk(cx, cz) {
                Some(c) => {
                    assert!((-2..=2).contains(&cx) && (-2..=2).contains(&cz));
                    assert_eq!((c.x, c.z), (cx, cz));
                }
                None => assert!(!((-2..=2).contains(&cx) && (-2..=2).contains(&cz))),
            }
        }
    }
}

#[test]
fn worldmap_clone_keeps_chunks() {
    let map = grid_world(1);
    let copy = map.clone();
    assert_eq!(copy.chunk_count(), 9);
    assert_eq!(copy.get_height(-7, 12), map.get_height(-7, 12));
    assert_eq!(copy.total_blocks(), map.total_blocks());
}

#[test]
fn world_from_chunks_stores_in_order() {
    let a = Chunk::from_columns(1, 1, 32, [[5; 16]; 16], [[Biome::Plains; 16]; 16]);
    let b = Chunk::from_columns(2, 1, 32, [[9; 16]; 16], [[Biome::Desert; 16]; 16]);
    let c = Chunk::from_columns(1, 1, 32, [[20; 16]; 16], [[Biome::Forest; 16]; 16]);
    let map = WorldMap::from_chunks(vec![a, b, c]);
    assert_eq!(map.chunk_count(), 2);
    assert_eq!(map.get_height(16, 16), 20);
    assert_eq!(map.get_biome(16, 16), Biome::Forest);
    assert_eq!(map.get_height(32, 16), 9);
    assert_eq!(map.chunks()[0].heights[0][0], 20);
}

#[test]
fn world_from_chunks_of_grid_has_square_of_chunks() {
    let chunks: Vec<Chunk> = chunk_grid(3)
        .into_iter()
        .map(|(cx, cz)| Chunk::from_columns(cx, cz, 32, [[1; 16]; 16], [[Biome::Plains; 16]; 16]))
        .collect();
    let map = WorldMap::from_chunks(chunks);
    assert_eq!(map.chunk_count(), 49);
    assert_eq!(map.total_blocks(), 49 * 256);
}
