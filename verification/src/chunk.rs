use vstd::prelude::*;
use crate::biome::Biome;

verus! {

/// Number of columns along each side of a chunk.
pub const CHUNK_SIDE: usize = 16;

/// Highest surface height a column can have.
pub const MAX_HEIGHT: i32 = 63;

/// A noise height limited to the range `0..=63`.
pub open spec fn clamp_height(h: i32) -> int {
    if h < 0 {
        0
    } else if h > MAX_HEIGHT {
        MAX_HEIGHT as int
    } else {
        h as int
    }
}

/// The smaller of two integers.
pub open spec fn min_int(a: int, b: int) -> int {
    if a <= b {
        a
    } else {
        b
    }
}

/// The height a biome gives a column before it is kept to `0..=63`: the
/// noise height is clamped to `0..=63`; oceans are cut down to the sea
/// level, mountains are raised by 15, and floating islands hover 10 above
/// the sea plus a third of the noise height; raised heights are capped at 63.
pub open spec fn biome_height(biome: Biome, noise_height: i32, sea_level: i32) -> int {
    let h = clamp_height(noise_height);
    match biome {
        Biome::Ocean => min_int(h, sea_level as int),
        Biome::Mountains => min_int(h + 15, MAX_HEIGHT as int),
        Biome::FloatingIslands => min_int(sea_level + 10 + h / 3, MAX_HEIGHT as int),
        _ => h,
    }
}

/// The surface height of a column of the given biome, from the height the
/// noise gave and the sea level: `biome_height`, kept to the range `0..=63`
/// (a sea level below 0 cannot push a column below the bottom of the world).
pub open spec fn surface_height(biome: Biome, noise_height: i32, sea_level: i32) -> int {
    let v = biome_height(biome, noise_height, sea_level);
    if v < 0 {
        0
    } else {
        v
    }
}

/// Whether the surface height of a column can be computed in 32 bits: only a
/// floating island adds to the sea level.
pub open spec fn surface_height_fits(biome: Biome, noise_height: i32, sea_level: i32) -> bool {
    biome == Biome::FloatingIslands ==> sea_level + 10 + clamp_height(noise_height) / 3
        <= i32::MAX
}

/// Whether `column_height` can be called on these values: the test of
/// `surface_height_fits`.
pub fn column_height_fits(biome: Biome, noise_height: i32, sea_level: i32) -> (fits: bool)
    ensures
        fits == surface_height_fits(biome, noise_height, sea_level),
{
    match biome {
        Biome::FloatingIslands => {
            let height = if noise_height < 0 {
                0
            } else if noise_height > MAX_HEIGHT {
                MAX_HEIGHT
            } else {
                noise_height
            };
            sea_level as i64 + 10 + (height / 3) as i64 <= i32::MAX as i64
        },
        _ => true,
    }
}

/// Final surface height of one column; see `surface_height`.
pub fn column_height(biome: Biome, noise_height: i32, sea_level: i32) -> (h: i32)
    requires
        surface_height_fits(biome, noise_height, sea_level),
    ensures
        h == surface_height(biome, noise_height, sea_level),
{
    let height = if noise_height < 0 {
        0
    } else if noise_height > MAX_HEIGHT {
        MAX_HEIGHT
    } else {
        noise_height
    };
    let raised = match biome {
        Biome::Ocean => height.min(sea_level),
        Biome::Mountains => (height + 15).min(MAX_HEIGHT),
        Biome::FloatingIslands => (sea_level + 10 + (height / 3)).min(MAX_HEIGHT),
        _ => height,
    };
    raised.max(0)
}


/// Sum of the positive heights of the first `n` columns of a row.
pub open spec fn row_blocks(row: [i32; 16], n: int) -> int
    decreases n,
{
    if n <= 0 {
        0
    } else {
        row_blocks(row, n - 1) + (if row[n - 1] > 0 {
            row[n - 1] as int
        } else {
            0
        })
    }
}

/// Sum of `row_blocks` over the first `n` rows of a height grid.
pub open spec fn grid_blocks(heights: [[i32; 16]; 16], n: int) -> int
    decreases n,
{
    if n <= 0 {
        0
    } else {
        grid_blocks(heights, n - 1) + row_blocks(heights[n - 1], 16)
    }
}

/// Number of solid blocks of a chunk: every column is solid from y = 0 up to
/// its height, and a column of negative height holds none.
pub open spec fn chunk_blocks(c: Chunk) -> int {
    grid_blocks(c.heights, 16)
}

/// A 16×64×16 vertical column of the world. We store the surface heights
/// and biomes per column (x, z within the chunk).
#[derive(Debug)]
pub struct Chunk {
    /// Chunk X coordinate (in chunk units, not block units).
    pub x: i32,
    /// Chunk Z coordinate (in chunk units, not block units).
    pub z: i32,
    /// Surface heights per column `[z][x]`, range 0..=63.
    pub heights: [[i32; 16]; 16],
    /// Biome per column `[z][x]`.
    pub biomes: [[Biome; 16]; 16],
}

impl Clone for Chunk {
    /// A copy of the chunk, equal in every field.
    fn clone(&self) -> (c: Chunk)
        ensures
            c == *self,
    {
        Chunk { x: self.x, z: self.z, heights: self.heights, biomes: self.biomes }
    }
}

/// Every height of a chunk lies in `0..=63`.
pub open spec fn heights_in_range(c: Chunk) -> bool {
    forall|lz: int, lx: int|
        0 <= lz < 16 && 0 <= lx < 16 ==> 0 <= #[trigger] c.heights[lz][lx] <= MAX_HEIGHT
}

proof fn lemma_row_blocks_bounds(row: [i32; 16], n: int)
    requires
        0 <= n,
    ensures
        0 <= row_blocks(row, n) <= n * 2147483647,
    decreases n,
{
    if n > 0 {
        lemma_row_blocks_bounds(row, n - 1);
    }
}

proof fn lemma_grid_blocks_bounds(heights: [[i32; 16]; 16], n: int)
    requires
        0 <= n,
    ensures
        0 <= grid_blocks(heights, n) <= n * 16 * 2147483647,
    decreases n,
{
    if n > 0 {
        lemma_grid_blocks_bounds(heights, n - 1);
        lemma_row_blocks_bounds(heights[n - 1], 16);
    }
}

/// A chunk's block count is never negative.
pub proof fn lemma_chunk_blocks_nonnegative(c: Chunk)
    ensures
        0 <= chunk_blocks(c),
{
    lemma_grid_blocks_bounds(c.heights, 16);
}

impl Chunk {
    /// Get the height at local (lx, lz) within this chunk.
    pub fn height_at(&self, lx: usize, lz: usize) -> (h: i32)
        requires
            lx < 16,
            lz < 16,
        ensures
            h == self.heights[lz as int][lx as int],
    {
        self.heights[lz][lx]
    }

    /// Get the biome at local (lx, lz) within this chunk.
    pub fn biome_at(&self, lx: usize, lz: usize) -> (b: Biome)
        requires
            lx < 16,
            lz < 16,
        ensures
            b == self.biomes[lz as int][lx as int],
    {
        self.biomes[lz][lx]
    }

    /// Count the total number of solid blocks in this chunk.
    /// For each column, all blocks from y=0 up to height are solid.
    pub fn total_blocks(&self) -> (count: usize)
        requires
            chunk_blocks(*self) <= usize::MAX,
        ensures
            count == chunk_blocks(*self),
    {
        let mut count: u64 = 0;
        let mut lz: usize = 0;
        while lz < 16
            invariant
                lz <= 16,
                count == grid_blocks(self.heights, lz as int),
                count <= lz * 16 * 2147483647,
            decreases 16 - lz,
        {
            let row = self.heights[lz];
            let mut row_count: u64 = 0;
            let mut lx: usize = 0;
            while lx < 16
                invariant
                    lx <= 16,
                    row == self.heights[lz as int],
                    row_count == row_blocks(row, lx as int),
                    row_count <= lx * 2147483647,
                decreases 16 - lx,
            {
                let h = row[lx].max(0);
                row_count = row_count + h as u64;
                lx = lx + 1;
            }
            count = count + row_count;
            lz = lz + 1;
        }
        count as usize
    }

    /// Assemble a chunk at chunk coordinates (cx, cz) from the height the
    /// noise gave each column and the biome of each column: each column's
    /// height is `surface_height` of its biome, noise height and the sea level.
    pub fn from_columns(
        cx: i32,
        cz: i32,
        sea_level: i32,
        noise_heights: [[i32; 16]; 16],
        biomes: [[Biome; 16]; 16],
    ) -> (c: Chunk)
        requires
            forall|lz: int, lx: int|
                0 <= lz < 16 && 0 <= lx < 16 ==> surface_height_fits(
                    #[trigger] biomes[lz][lx],
                    noise_heights[lz][lx],
                    sea_level,
                ),
        ensures
            c.x == cx,
            c.z == cz,
            c.biomes == biomes,
            forall|lz: int, lx: int|
                0 <= lz < 16 && 0 <= lx < 16 ==> #[trigger] c.heights[lz][lx] == surface_height(
                    biomes[lz][lx],
                    noise_heights[lz][lx],
                    sea_level,
                ),
            heights_in_range(c),
    {
        let mut heights = noise_heights;
        let mut lz: usize = 0;
        while lz < 16
            invariant
                lz <= 16,
                forall|z: int, x: int|
                    0 <= z < lz && 0 <= x < 16 ==> #[trigger] heights[z][x] == surface_height(
                        biomes[z][x],
                        noise_heights[z][x],
                        sea_level,
                    ),
                forall|z: int, x: int|
                    0 <= z < 16 && 0 <= x < 16 ==> surface_height_fits(
                        #[trigger] biomes[z][x],
                        noise_heights[z][x],
                        sea_level,
                    ),
            decreases 16 - lz,
        {
            let mut row = heights[lz];
            let mut lx: usize = 0;
            while lx < 16
                invariant
                    lz < 16,
                    lx <= 16,
                    forall|x: int|
                        0 <= x < lx ==> #[trigger] row[x] == surface_height(
                            biomes[lz as int][x],
                            noise_heights[lz as int][x],
                            sea_level,
                        ),
                    forall|z: int, x: int|
                        0 <= z < 16 && 0 <= x < 16 ==> surface_height_fits(
                            #[trigger] biomes[z][x],
                            noise_heights[z][x],
                            sea_level,
                        ),
                decreases 16 - lx,
            {
                assert(surface_height_fits(biomes[lz as int][lx as int], noise_heights[lz as int][lx as int], sea_level));
                let h = column_height(biomes[lz][lx], noise_heights[lz][lx], sea_level);
                row[lx] = h;
                lx = lx + 1;
            }
            heights[lz] = row;
            lz = lz + 1;
        }
        let c = Chunk { x: cx, z: cz, heights, biomes };
        proof {
            assert forall|lz: int, lx: int| 0 <= lz < 16 && 0 <= lx < 16 implies 0
                <= #[trigger] c.heights[lz][lx] <= MAX_HEIGHT by {
                lemma_surface_height_in_range(biomes[lz][lx], noise_heights[lz][lx], sea_level);
            }
        }
        c
    }
}

/// Every surface height lies in `0..=63`, whatever the sea level.
pub proof fn lemma_surface_height_in_range(biome: Biome, noise_height: i32, sea_level: i32)
    ensures
        0 <= surface_height(biome, noise_height, sea_level) <= MAX_HEIGHT,
{
}

/// The height rules of the biomes: an ocean never rises above the sea
/// level (or above 0, when the sea level is below 0) nor above its noise
/// height; a mountain stands 15 above its noise height, capped at 63; a
/// floating island hovers above the sea level whenever the sea level is
/// below 63; every other biome keeps its noise height clamped to `0..=63`.
pub proof fn lemma_biome_height_rules(noise_height: i32, sea_level: i32)
    ensures
        surface_height(Biome::Ocean, noise_height, sea_level) <= (if sea_level < 0 {
            0
        } else {
            sea_level as int
        }),
        surface_height(Biome::Ocean, noise_height, sea_level) <= clamp_height(noise_height),
        surface_height(Biome::Mountains, noise_height, sea_level) == min_int(
            clamp_height(noise_height) + 15,
            63,
        ),
        surface_height(Biome::Mountains, noise_height, sea_level) >= clamp_height(noise_height),
        sea_level < 63 ==> surface_height(Biome::FloatingIslands, noise_height, sea_level)
            > sea_level,
        surface_height(Biome::Plains, noise_height, sea_level) == clamp_height(noise_height),
{
}

/// Only oceans, mountains and floating islands change a column's height:
/// every other biome gives its noise height clamped to `0..=63`, whatever the
/// sea level.
pub proof fn lemma_other_biomes_keep_noise_height(
    biome: Biome,
    noise_height: i32,
    sea_level: i32,
    other_sea_level: i32,
)
    requires
        biome != Biome::Ocean,
        biome != Biome::Mountains,
        biome != Biome::FloatingIslands,
    ensures
        surface_height(biome, noise_height, sea_level) == (if noise_height < 0 {
            0
        } else if noise_height > 63 {
            63
        } else {
            noise_height as int
        }),
        surface_height(biome, noise_height, sea_level) == surface_height(
            biome,
            noise_height,
            other_sea_level,
        ),
{
}

proof fn lemma_row_blocks_in_range(row: [i32; 16], n: int, k: int)
    requires
        0 <= k < n <= 16,
        forall|x: int| 0 <= x < 16 ==> 0 <= #[trigger] row[x] <= MAX_HEIGHT,
    ensures
        row[k] <= row_blocks(row, n) <= n * 63,
    decreases n,
{
    if n - 1 > k {
        lemma_row_blocks_in_range(row, n - 1, k);
    } else if n - 1 > 0 {
        lemma_row_blocks_in_range(row, n - 1, 0);
    } else {
        assert(row_blocks(row, n - 1) == 0);
    }
    assert(0 <= row[n - 1] <= MAX_HEIGHT);
    assert(row_blocks(row, n) == row_blocks(row, n - 1) + row[n - 1]);
}

proof fn lemma_grid_blocks_in_range(heights: [[i32; 16]; 16], n: int, z: int, x: int)
    requires
        0 <= z < n <= 16,
        0 <= x < 16,
        forall|lz: int, lx: int|
            0 <= lz < 16 && 0 <= lx < 16 ==> 0 <= #[trigger] heights[lz][lx] <= MAX_HEIGHT,
    ensures
        heights[z][x] <= grid_blocks(heights, n) <= n * 16 * 63,
    decreases n,
{
    lemma_row_blocks_in_range(heights[n - 1], 16, x);
    if n - 1 > z {
        lemma_grid_blocks_in_range(heights, n - 1, z, x);
    } else if n - 1 > 0 {
        lemma_grid_blocks_in_range(heights, n - 1, 0, x);
    } else {
        assert(grid_blocks(heights, n - 1) == 0);
    }
}

/// A chunk whose heights lie in `0..=63` holds at most `16 * 16 * 63`
/// blocks, and at least as many as its tallest column, so it holds a block
/// as soon as one column has a positive height.
pub proof fn lemma_chunk_blocks_in_range(c: Chunk, lx: int, lz: int)
    requires
        heights_in_range(c),
        0 <= lx < 16,
        0 <= lz < 16,
    ensures
        c.heights[lz][lx] <= chunk_blocks(c) <= 16 * 16 * 63,
{
    lemma_grid_blocks_in_range(c.heights, 16, lz, lx);
}

proof fn lemma_row_blocks_monotone(r1: [i32; 16], r2: [i32; 16], n: int)
    requires
        0 <= n <= 16,
        forall|x: int| 0 <= x < 16 ==> #[trigger] r1[x] <= r2[x],
    ensures
        row_blocks(r1, n) <= row_blocks(r2, n),
    decreases n,
{
    if n > 0 {
        lemma_row_blocks_monotone(r1, r2, n - 1);
        assert(r1[n - 1] <= r2[n - 1]);
    }
}

proof fn lemma_grid_blocks_monotone(h1: [[i32; 16]; 16], h2: [[i32; 16]; 16], n: int)
    requires
        0 <= n <= 16,
        forall|z: int, x: int| 0 <= z < 16 && 0 <= x < 16 ==> #[trigger] h1[z][x] <= h2[z][x],
    ensures
        grid_blocks(h1, n) <= grid_blocks(h2, n),
    decreases n,
{
    if n > 0 {
        lemma_grid_blocks_monotone(h1, h2, n - 1);
        assert forall|x: int| 0 <= x < 16 implies #[trigger] h1[n - 1][x] <= h2[n - 1][x] by {
            assert(h1[n - 1][x] <= h2[n - 1][x]);
        }
        lemma_row_blocks_monotone(h1[n - 1], h2[n - 1], 16);
    }
}

/// Block counts grow with the heights: a chunk whose every column is at
/// least as tall as another's holds at least as many blocks.
pub proof fn lemma_chunk_blocks_monotone(c1: Chunk, c2: Chunk)
    requires
        forall|lz: int, lx: int|
            0 <= lz < 16 && 0 <= lx < 16 ==> #[trigger] c1.heights[lz][lx] <= c2.heights[lz][lx],
    ensures
        chunk_blocks(c1) <= chunk_blocks(c2),
{
    lemma_grid_blocks_monotone(c1.heights, c2.heights, 16);
}

proof fn lemma_row_blocks_one_more(r1: [i32; 16], r2: [i32; 16], n: int, k: int)
    requires
        0 <= n <= 16,
        0 <= k < 16,
        0 <= r1[k],
        r2[k] == r1[k] + 1,
        forall|x: int| 0 <= x < 16 && x != k ==> #[trigger] r1[x] == r2[x],
    ensures
        row_blocks(r2, n) == row_blocks(r1, n) + (if k < n {
            1int
        } else {
            0int
        }),
    decreases n,
{
    if n > 0 {
        lemma_row_blocks_one_more(r1, r2, n - 1, k);
        if n - 1 != k {
            assert(r1[n - 1] == r2[n - 1]);
        }
    }
}

proof fn lemma_grid_blocks_one_more(h1: [[i32; 16]; 16], h2: [[i32; 16]; 16], n: int, lz: int, lx: int)
    requires
        0 <= n <= 16,
        0 <= lz < 16,
        0 <= lx < 16,
        0 <= h1[lz][lx],
        h2[lz][lx] == h1[lz][lx] + 1,
        forall|z: int, x: int|
            0 <= z < 16 && 0 <= x < 16 && (z != lz || x != lx) ==> #[trigger] h1[z][x] == h2[z][x],
    ensures
        grid_blocks(h2, n) == grid_blocks(h1, n) + (if lz < n {
            1int
        } else {
            0int
        }),
    decreases n,
{
    if n > 0 {
        lemma_grid_blocks_one_more(h1, h2, n - 1, lz, lx);
        let z = n - 1;
        if z == lz {
            assert forall|x: int| 0 <= x < 16 && x != lx implies #[trigger] h1[z][x] == h2[z][x] by {
                assert(h1[z][x] == h2[z][x]);
            }
            lemma_row_blocks_one_more(h1[z], h2[z], 16, lx);
        } else {
            assert forall|x: int| 0 <= x < 16 implies #[trigger] h1[z][x] <= h2[z][x] by {
                assert(h1[z][x] == h2[z][x]);
            }
            assert forall|x: int| 0 <= x < 16 implies #[trigger] h2[z][x] <= h1[z][x] by {
                assert(h1[z][x] == h2[z][x]);
            }
            lemma_row_blocks_monotone(h1[z], h2[z], 16);
            lemma_row_blocks_monotone(h2[z], h1[z], 16);
        }
    }
}

/// Raising one column of non-negative height by one adds exactly one block.
pub proof fn lemma_chunk_blocks_one_more(c1: Chunk, c2: Chunk, lx: int, lz: int)
    requires
        0 <= lx < 16,
        0 <= lz < 16,
        0 <= c1.heights[lz][lx],
        c2.heights[lz][lx] == c1.heights[lz][lx] + 1,
        forall|z: int, x: int|
            0 <= z < 16 && 0 <= x < 16 && (z != lz || x != lx) ==> #[trigger] c1.heights[z][x]
                == c2.heights[z][x],
    ensures
        chunk_blocks(c2) == chunk_blocks(c1) + 1,
{
    lemma_grid_blocks_one_more(c1.heights, c2.heights, 16, lz, lx);
}

} // verus!
