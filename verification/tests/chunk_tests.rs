use lau_worldgen::chunk::{column_height, column_height_fits};
use lau_worldgen::{Biome, Chunk};

fn uniform(cx: i32, cz: i32, sea: i32, noise: i32, biome: Biome) -> Chunk {
    Chunk::from_columns(cx, cz, sea, [[noise; 16]; 16], [[biome; 16]; 16])
}

#[test]
fn column_height_clamps_noise() {
    assert_eq!(column_height(Biome::Plains, -5, 32), 0);
    assert_eq!(column_height(Biome::Forest, 70, 32), 63);
    assert_eq!(column_height(Biome::Desert, 40, 32), 40);
}

#[test]
fn column_height_ocean_at_or_below_sea() {
    assert_eq!(column_height(Biome::Ocean, 50, 32), 32);
    assert_eq!(column_height(Biome::Ocean, 20, 32), 20);
    assert_eq!(column_height(Biome::Ocean, 20, -4), 0);
}

#[test]
fn column_height_mountains_boosted() {
    assert_eq!(column_height(Biome::Mountains, 30, 32), 45);
    assert_eq!(column_height(Biome::Mountains, 60, 32), 63);
}

#[test]
fn column_height_floating_islands_hover() {
    assert_eq!(column_height(Biome::FloatingIslands, 30, 32), 52);
    assert_eq!(column_height(Biome::FloatingIslands, 0, 10), 20);
    assert_eq!(column_height(Biome::FloatingIslands, 63, 60), 63);
}

#[test]
fn column_height_never_below_zero() {
    assert_eq!(column_height(Biome::FloatingIslands, 30, -100), 0);
    assert_eq!(column_height(Biome::FloatingIslands, 63, -20), 11);
    assert_eq!(column_height(Biome::Ocean, 63, i32::MIN), 0);
    let c = Chunk::from_columns(0, 0, -100, [[30; 16]; 16], [[Biome::FloatingIslands; 16]; 16]);
    assert_eq!(c.heights, [[0; 16]; 16]);
}

#[test]
fn column_height_fits_only_fails_near_overflow() {
    assert!(column_height_fits(Biome::FloatingIslands, 63, 32));
    assert!(!column_height_fits(Biome::FloatingIslands, 63, i32::MAX - 20));
    assert!(column_height_fits(Biome::FloatingIslands, 0, i32::MAX - 10));
    assert!(column_height_fits(Biome::Ocean, 63, i32::MAX));
}

#[test]
fn from_columns_sets_coordinates_and_biomes() {
    let c = uniform(3, -7, 32, 40, Biome::Desert);
    assert_eq!(c.x, 3);
    assert_eq!(c.z, -7);
    assert_eq!(c.biomes, [[Biome::Desert; 16]; 16]);
    assert_eq!(c.heights, [[40; 16]; 16]);
}

#[test]
fn from_columns_heights_in_range() {
    let mut noise = [[0i32; 16]; 16];
    let mut biomes = [[Biome::Plains; 16]; 16];
    let kinds = [
        Biome::Plains,
        Biome::Forest,
        Biome::Desert,
        Biome::Mountains,
        Biome::Ocean,
        Biome::CrystalCaves,
        Biome::FloatingIslands,
        Biome::Volcanic,
    ];
    for lz in 0..16 {
        for lx in 0..16 {
            noise[lz][lx] = (lz as i32 - 8) * 20 + lx as i32;
            biomes[lz][lx] = kinds[(lz + lx) % 8];
        }
    }
    let c = Chunk::from_columns(0, 0, 32, noise, biomes);
    for lz in 0..16 {
        for lx in 0..16 {
            let h = c.heights[lz][lx];
            assert!((0..=63).contains(&h), "height {h} out of range at ({lx},{lz})");
            assert_eq!(h, column_height(biomes[lz][lx], noise[lz][lx], 32));
        }
    }
}

#[test]
fn height_and_biome_at_read_columns() {
    let mut noise = [[0i32; 16]; 16];
    let mut biomes = [[Biome::Plains; 16]; 16];
    noise[2][5] = 17;
    biomes[2][5] = Biome::Volcanic;
    let c = Chunk::from_columns(0, 0, 32, noise, biomes);
    assert_eq!(c.height_at(5, 2), 17);
    assert_eq!(c.biome_at(5, 2), Biome::Volcanic);
    assert_eq!(c.height_at(2, 5), 0);
    assert_eq!(c.biome_at(2, 5), Biome::Plains);
}

#[test]
fn chunk_total_blocks_sums_columns() {
    assert_eq!(uniform(0, 0, 32, 10, Biome::Plains).total_blocks(), 2560);
    assert_eq!(uniform(0, 0, 32, 63, Biome::Plains).total_blocks(), 16 * 16 * 63);
    assert_eq!(uniform(0, 0, 32, 0, Biome::Plains).total_blocks(), 0);
}

#[test]
fn chunk_total_blocks_ignores_negative_heights() {
    let mut heights = [[-3i32; 16]; 16];
    heights[0][0] = 5;
    heights[15][15] = 7;
    let c = Chunk { x: 0, z: 0, heights, biomes: [[Biome::Plains; 16]; 16] };
    assert_eq!(c.total_blocks(), 12);
}
