use lau_worldgen::world::chunk_grid;
use lau_worldgen::{Biome, Chunk, WorldMap};

fn chunk_with(cx: i32, cz: i32, noise: i32, biome: Biome) -> Chunk {
    let mut heights = [[noise; 16]; 16];
    for lz in 0..16 {
        for lx in 0..16 {
            heights[lz][lx] = noise + (lz * 2 + lx) as i32 % 7;
        }
    }
    Chunk::from_columns(cx, cz, 32, heights, [[biome; 16]; 16])
}

#[test]
fn empty_world_defaults() {
    let map = WorldMap::new();
    assert_eq!(map.chunk_count(), 0);
    assert_eq!(map.get_height(5, 5), 0);
    assert_eq!(map.get_biome(5, 5), Biome::Plains);
    assert!(map.get_chunk(0, 0).is_none());
    assert_eq!(map.total_blocks(), 0);
}

#[test]
fn world_height_and_biome_read_inserted_chunk() {
    let mut map = WorldMap::new();
    let c = chunk_with(0, 0, 20, Biome::Desert);
    let expected = c.heights[5][5];
    map.insert(c);
    assert_eq!(map.get_height(5, 5), expected);
    assert_eq!(map.get_biome(5, 5), Biome::Desert);
    assert_eq!(map.get_height(100, 100), 0);
    assert_eq!(map.get_biome(100, 100), Biome::Plains);
}

#[test]
fn world_negative_coordinates_use_floor_division() {
    let mut map = WorldMap::new();
    let c = chunk_with(-1, -1, 10, Biome::Forest);
    let corner = c.heights[15][15];
    let first = c.heights[0][0];
    map.insert(c);
    assert_eq!(map.get_height(-1, -1), corner);
    assert_eq!(map.get_height(-16, -16), first);
    assert_eq!(map.get_height(0, 0), 0);
    assert_eq!(map.get_biome(-16, -1), Biome::Forest);
}

#[test]
fn world_insert_replaces_same_coordinates() {
    let mut map = WorldMap::new();
    map.insert(chunk_with(2, 3, 5, Biome::Plains));
    map.insert(chunk_with(2, 3, 40, Biome::Volcanic));
    assert_eq!(map.chunk_count(), 1);
    assert_eq!(map.get_biome(32, 48), Biome::Volcanic);
    let c = map.get_chunk(2, 3).unwrap();
    assert_eq!(c.heights[0][0], 40);
}

#[test]
fn world_get_chunk_finds_each_chunk() {
    let mut map = WorldMap::new();
    map.insert(chunk_with(0, 0, 1, Biome::Plains));
    map.insert(chunk_with(1, 0, 2, Biome::Ocean));
    map.insert(chunk_with(0, 1, 3, Biome::Desert));
    assert_eq!(map.chunk_count(), 3);
    assert_eq!(map.get_chunk(1, 0).unwrap().biomes[0][0], Biome::Ocean);
    assert_eq!(map.get_chunk(0, 1).unwrap().x, 0);
    assert_eq!(map.get_chunk(0, 1).unwrap().z, 1);
    assert!(map.get_chunk(1, 1).is_none());
}

#[test]
fn world_total_blocks_sums_chunks() {
    let mut map = WorldMap::new();
    let a = chunk_with(0, 0, 10, Biome::Plains);
    let b = chunk_with(5, -5, 30, Biome::Forest);
    let expected = a.total_blocks() + b.total_blocks();
    map.insert(a);
    map.insert(b);
    assert_eq!(map.total_blocks(), expected);
    assert!(map.total_blocks() > 0);
}

#[test]
fn chunk_grid_order_and_size() {
    let grid = chunk_grid(2);
    assert_eq!(grid.len(), 25);
    assert_eq!(grid[0], (-2, -2));
    assert_eq!(grid[1], (-1, -2));
    assert_eq!(grid[5], (-2, -1));
    assert_eq!(grid[24], (2, 2));
    assert_eq!(chunk_grid(0), vec![(0, 0)]);
    assert!(chunk_grid(-3).is_empty());
}

#[test]
fn world_of_grid_radius_two_has_25_chunks() {
    let mut map = WorldMap::new();
    for (cx, cz) in chunk_grid(2) {
        map.insert(chunk_with(cx, cz, 8, Biome::Plains));
    }
    assert_eq!(map.chunk_count(), 25);
    assert!(map.get_chunk(-2, 2).is_some());
    assert!(map.get_chunk(3, 0).is_none());
}

#[test]
fn world_chunks_lists_insertion_order() {
    let mut map = WorldMap::new();
    map.insert(chunk_with(4, 4, 1, Biome::Plains));
    map.insert(chunk_with(-4, 4, 1, Biome::Plains));
    let chunks = map.chunks();
    assert_eq!(chunks.len(), 2);
    assert_eq!((chunks[0].x, chunks[0].z), (4, 4));
    assert_eq!((chunks[1].x, chunks[1].z), (-4, 4));
}
