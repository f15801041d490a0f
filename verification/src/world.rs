use vstd::prelude::*;
use std::collections::HashMap;
use crate::biome::Biome;
use crate::chunk::{
    Chunk, chunk_blocks, heights_in_range, lemma_chunk_blocks_in_range,
    lemma_chunk_blocks_nonnegative,
};

verus! {

broadcast use vstd::std_specs::hash::group_hash_axioms;

/// The chunk coordinates a chunk is stored under.
pub open spec fn chunk_coords(c: Chunk) -> (i32, i32) {
    (c.x, c.z)
}

/// No two chunks of the sequence share their coordinates.
pub open spec fn coords_distinct(s: Seq<Chunk>) -> bool {
    forall|i: int, j: int|
        0 <= i < s.len() && 0 <= j < s.len() && i != j ==> chunk_coords(#[trigger] s[i])
            != chunk_coords(#[trigger] s[j])
}

/// The map from chunk coordinates to chunks that a sequence of chunks with
/// distinct coordinates describes.
pub open spec fn chunk_map(s: Seq<Chunk>) -> Map<(i32, i32), Chunk> {
    Map::new(
        |k: (i32, i32)| exists|i: int| 0 <= i < s.len() && chunk_coords(#[trigger] s[i]) == k,
        |k: (i32, i32)| s[choose|i: int| 0 <= i < s.len() && chunk_coords(#[trigger] s[i]) == k],
    )
}

/// Sum of the block counts of a sequence of chunks.
pub open spec fn world_blocks(s: Seq<Chunk>) -> int
    decreases s.len(),
{
    if s.len() == 0 {
        0
    } else {
        world_blocks(s.drop_last()) + chunk_blocks(s.last())
    }
}

/// The chunk coordinate that holds world coordinate `w` (floor division by 16).
pub open spec fn chunk_of(w: i32) -> int {
    w as int / 16
}

/// The position of world coordinate `w` inside its chunk (`w` modulo 16, in `0..16`).
pub open spec fn local_of(w: i32) -> int {
    w as int % 16
}

/// The chunk coordinates that hold world column `(wx, wz)`.
pub open spec fn column_key(wx: i32, wz: i32) -> (i32, i32) {
    (chunk_of(wx) as i32, chunk_of(wz) as i32)
}

/// The surface height of world column `(wx, wz)` in a map of chunks, or 0
/// where no chunk holds it.
pub open spec fn height_lookup(m: Map<(i32, i32), Chunk>, wx: i32, wz: i32) -> i32 {
    let k = column_key(wx, wz);
    if m.contains_key(k) {
        m[k].heights[local_of(wz)][local_of(wx)]
    } else {
        0
    }
}

/// The biome of world column `(wx, wz)` in a map of chunks, or `Plains`
/// where no chunk holds it.
pub open spec fn biome_lookup(m: Map<(i32, i32), Chunk>, wx: i32, wz: i32) -> Biome {
    let k = column_key(wx, wz);
    if m.contains_key(k) {
        m[k].biomes[local_of(wz)][local_of(wx)]
    } else {
        Biome::Plains
    }
}

/// Number of chunks along each side of the square of chunk coordinates
/// `-radius..=radius` (none for a negative radius).
pub open spec fn grid_side(radius: i32) -> int {
    if radius < 0 {
        0
    } else {
        2 * radius + 1
    }
}

/// The `i`-th coordinates of the square of radius `radius`, walked row by
/// row: z from `-radius` up, and within a row x from `-radius` up.
pub open spec fn grid_coord(radius: i32, i: int) -> (i32, i32) {
    let n = grid_side(radius);
    ((-radius + i % n) as i32, (-radius + i / n) as i32)
}

/// All chunk coordinates of the square of radius `radius`, in generation order.
pub open spec fn grid_coords(radius: i32) -> Seq<(i32, i32)> {
    Seq::new((grid_side(radius) * grid_side(radius)) as nat, |i: int| grid_coord(radius, i))
}

/// The map that storing the chunks of `s` one after another into `m` gives.
pub open spec fn insert_all(m: Map<(i32, i32), Chunk>, s: Seq<Chunk>) -> Map<(i32, i32), Chunk>
    decreases s.len(),
{
    if s.len() == 0 {
        m
    } else {
        insert_all(m, s.drop_last()).insert(chunk_coords(s.last()), s.last())
    }
}

/// A collection of generated chunks forming a world, each stored under its
/// own chunk coordinates. The chunks are kept in a vector, in the order they
/// were first stored, and a hash table maps the key of each pair of chunk
/// coordinates to the position of its chunk.
#[derive(Debug)]
pub struct WorldMap {
    chunks: Vec<Chunk>,
    index: HashMap<u64, usize>,
}

/// The 64-bit hash-table key of a pair of chunk coordinates: each coordinate
/// shifted to `0..2^32`, the x one in the high half and the z one in the low.
pub open spec fn coords_key(k: (i32, i32)) -> u64 {
    ((k.0 as int + 0x8000_0000) * 0x1_0000_0000 + (k.1 as int + 0x8000_0000)) as u64
}

/// Distinct coordinate pairs have distinct keys.
pub proof fn lemma_coords_key_injective(a: (i32, i32), b: (i32, i32))
    ensures
        coords_key(a) == coords_key(b) ==> a == b,
{
    let n: int = 0x1_0000_0000;
    let (qa, ra) = (a.0 as int + 0x8000_0000, a.1 as int + 0x8000_0000);
    let (qb, rb) = (b.0 as int + 0x8000_0000, b.1 as int + 0x8000_0000);
    assert(0 <= qa * n + ra < 0x1_0000_0000_0000_0000) by (nonlinear_arith)
        requires
            0 <= qa < n,
            0 <= ra < n,
            n == 0x1_0000_0000,
    ;
    assert(0 <= qb * n + rb < 0x1_0000_0000_0000_0000) by (nonlinear_arith)
        requires
            0 <= qb < n,
            0 <= rb < n,
            n == 0x1_0000_0000,
    ;
    if coords_key(a) == coords_key(b) {
        let x = qa * n + ra;
        vstd::arithmetic::div_mod::lemma_fundamental_div_mod_converse(x, n, qa, ra);
        vstd::arithmetic::div_mod::lemma_fundamental_div_mod_converse(x, n, qb, rb);
    }
}

impl WorldMap {
    #[verifier::type_invariant]
    spec fn well_formed(self) -> bool {
        &&& coords_distinct(self.chunks@)
        &&& forall|i: int|
            0 <= i < self.chunks@.len() ==> {
                &&& #[trigger] self.index@.contains_key(coords_key(chunk_coords(self.chunks@[i])))
                &&& self.index@[coords_key(chunk_coords(self.chunks@[i]))] == i
            }
        &&& forall|k: u64|
            #[trigger] self.index@.contains_key(k) ==> {
                &&& self.index@[k] < self.chunks@.len()
                &&& coords_key(chunk_coords(self.chunks@[self.index@[k] as int])) == k
            }
    }

    /// The chunks of the world, in the order they were first inserted.
    pub closed spec fn chunk_list(&self) -> Seq<Chunk> {
        self.chunks@
    }
}

impl View for WorldMap {
    type V = Map<(i32, i32), Chunk>;

    /// The world as a map from chunk coordinates to chunks.
    open spec fn view(&self) -> Map<(i32, i32), Chunk> {
        chunk_map(self.chunk_list())
    }
}

/// In a sequence with distinct coordinates, each chunk is what the map holds
/// under its coordinates.
proof fn lemma_chunk_map_index(s: Seq<Chunk>, i: int)
    requires
        coords_distinct(s),
        0 <= i < s.len(),
    ensures
        chunk_map(s).contains_key(chunk_coords(s[i])),
        chunk_map(s)[chunk_coords(s[i])] == s[i],
{
    let k = chunk_coords(s[i]);
    assert(chunk_map(s).dom().contains(k));
    let j = choose|j: int| 0 <= j < s.len() && chunk_coords(#[trigger] s[j]) == k;
    assert(j == i);
}

/// The map of a sequence with one more chunk at the end.
proof fn lemma_chunk_map_push(s: Seq<Chunk>, c: Chunk)
    requires
        coords_distinct(s),
        !chunk_map(s).contains_key(chunk_coords(c)),
    ensures
        coords_distinct(s.push(c)),
        chunk_map(s.push(c)) == chunk_map(s).insert(chunk_coords(c), c),
{
    let t = s.push(c);
    assert forall|i: int, j: int|
        0 <= i < t.len() && 0 <= j < t.len() && i != j implies chunk_coords(#[trigger] t[i])
        != chunk_coords(#[trigger] t[j]) by {
        if i == s.len() {
            assert(t[j] == s[j]);
        } else if j == s.len() {
            assert(t[i] == s[i]);
        }
    }
    assert forall|k: (i32, i32)| #[trigger] chunk_map(t).contains_key(k) <==> chunk_map(s).insert(
        chunk_coords(c),
        c,
    ).contains_key(k) by {
        if chunk_map(t).contains_key(k) {
            let i = choose|i: int| 0 <= i < t.len() && chunk_coords(#[trigger] t[i]) == k;
            if i < s.len() {
                assert(t[i] == s[i]);
            }
        }
        if chunk_map(s).contains_key(k) {
            let i = choose|i: int| 0 <= i < s.len() && chunk_coords(#[trigger] s[i]) == k;
            assert(t[i] == s[i]);
        }
        if k == chunk_coords(c) {
            assert(t[s.len() as int] == c);
        }
    }
    assert forall|k: (i32, i32)| #[trigger] chunk_map(t).contains_key(k) implies chunk_map(t)[k]
        == chunk_map(s).insert(chunk_coords(c), c)[k] by {
        let i = choose|i: int| 0 <= i < t.len() && chunk_coords(#[trigger] t[i]) == k;
        lemma_chunk_map_index(t, i);
        if i < s.len() {
            assert(t[i] == s[i]);
            lemma_chunk_map_index(s, i);
        }
    }
    assert(chunk_map(t) =~= chunk_map(s).insert(chunk_coords(c), c));
}

/// The map of a sequence in which one chunk is replaced by a chunk with the
/// same coordinates.
proof fn lemma_chunk_map_update(s: Seq<Chunk>, i: int, c: Chunk)
    requires
        coords_distinct(s),
        0 <= i < s.len(),
        chunk_coords(s[i]) == chunk_coords(c),
    ensures
        coords_distinct(s.update(i, c)),
        chunk_map(s.update(i, c)) == chunk_map(s).insert(chunk_coords(c), c),
{
    let t = s.update(i, c);
    assert forall|a: int, b: int|
        0 <= a < t.len() && 0 <= b < t.len() && a != b implies chunk_coords(#[trigger] t[a])
        != chunk_coords(#[trigger] t[b]) by {
        assert(chunk_coords(t[a]) == chunk_coords(s[a]));
        assert(chunk_coords(t[b]) == chunk_coords(s[b]));
    }
    assert forall|k: (i32, i32)| #[trigger] chunk_map(t).contains_key(k) <==> chunk_map(s).insert(
        chunk_coords(c),
        c,
    ).contains_key(k) by {
        if chunk_map(t).contains_key(k) {
            let j = choose|j: int| 0 <= j < t.len() && chunk_coords(#[trigger] t[j]) == k;
            assert(chunk_coords(t[j]) == chunk_coords(s[j]));
        }
        if chunk_map(s).contains_key(k) {
            let j = choose|j: int| 0 <= j < s.len() && chunk_coords(#[trigger] s[j]) == k;
            assert(chunk_coords(t[j]) == chunk_coords(s[j]));
        }
        if k == chunk_coords(c) {
            assert(t[i] == c);
        }
    }
    assert forall|k: (i32, i32)| #[trigger] chunk_map(t).contains_key(k) implies chunk_map(t)[k]
        == chunk_map(s).insert(chunk_coords(c), c)[k] by {
        let j = choose|j: int| 0 <= j < t.len() && chunk_coords(#[trigger] t[j]) == k;
        lemma_chunk_map_index(t, j);
        if j != i {
            assert(t[j] == s[j]);
            lemma_chunk_map_index(s, j);
        }
    }
    assert(chunk_map(t) =~= chunk_map(s).insert(chunk_coords(c), c));
}

/// The domain of the map of a sequence with distinct coordinates has as many
/// keys as the sequence has chunks.
proof fn lemma_chunk_map_len(s: Seq<Chunk>)
    requires
        coords_distinct(s),
    ensures
        chunk_map(s).dom().finite(),
        chunk_map(s).dom().len() == s.len(),
{
    let keys = s.map_values(|c: Chunk| chunk_coords(c));
    assert(keys.no_duplicates()) by {
        assert forall|i: int, j: int|
            0 <= i < keys.len() && 0 <= j < keys.len() && i != j implies keys[i] != keys[j] by {
            assert(keys[i] == chunk_coords(s[i]));
            assert(keys[j] == chunk_coords(s[j]));
        }
    }
    assert forall|k: (i32, i32)| #[trigger] chunk_map(s).dom().contains(k) <==> keys.to_set().contains(k) by {
        if chunk_map(s).dom().contains(k) {
            let i = choose|i: int| 0 <= i < s.len() && chunk_coords(#[trigger] s[i]) == k;
            assert(keys[i] == k);
        }
        if keys.to_set().contains(k) {
            let i = choose|i: int| 0 <= i < keys.len() && keys[i] == k;
            assert(chunk_coords(s[i]) == k);
        }
    }
    assert(chunk_map(s).dom() =~= keys.to_set());
    keys.unique_seq_to_set();
    vstd::seq_lib::seq_to_set_is_finite(keys);
}

/// The block total of a prefix never exceeds that of a longer prefix.
proof fn lemma_world_blocks_prefix(s: Seq<Chunk>, i: int)
    requires
        0 <= i <= s.len(),
    ensures
        0 <= world_blocks(s.take(i)) <= world_blocks(s),
    decreases s.len() - i,
{
    if i == s.len() {
        assert(s.take(i) =~= s);
        lemma_world_blocks_nonnegative(s);
    } else {
        lemma_world_blocks_prefix(s, i + 1);
        assert(s.take(i + 1).drop_last() =~= s.take(i));
        lemma_chunk_blocks_nonnegative(s[i]);
        lemma_world_blocks_nonnegative(s.take(i));
    }
}

/// The blocks of a world are at least those of any one of its chunks, and at
/// most `16 * 16 * 63` per chunk when every chunk has its heights in `0..=63`.
pub proof fn lemma_world_blocks_bounds(s: Seq<Chunk>, i: int)
    requires
        0 <= i < s.len(),
    ensures
        chunk_blocks(s[i]) <= world_blocks(s),
        (forall|j: int| 0 <= j < s.len() ==> heights_in_range(#[trigger] s[j])) ==> world_blocks(s)
            <= s.len() * (16 * 16 * 63),
    decreases s.len(),
{
    lemma_world_blocks_nonnegative(s.drop_last());
    if i < s.len() - 1 {
        lemma_world_blocks_bounds(s.drop_last(), i);
        assert(s.drop_last()[i] == s[i]);
        lemma_chunk_blocks_nonnegative(s.last());
    }
    if forall|j: int| 0 <= j < s.len() ==> heights_in_range(#[trigger] s[j]) {
        lemma_chunk_blocks_in_range(s.last(), 0, 0);
        if s.len() > 1 {
            assert forall|j: int| 0 <= j < s.len() - 1 implies heights_in_range(
                #[trigger] s.drop_last()[j],
            ) by {
                assert(s.drop_last()[j] == s[j]);
            }
            lemma_world_blocks_bounds(s.drop_last(), 0);
            assert(world_blocks(s.drop_last()) <= (s.len() - 1) * (16 * 16 * 63));
        } else {
            assert(world_blocks(s.drop_last()) == 0);
        }
        assert(world_blocks(s) == world_blocks(s.drop_last()) + chunk_blocks(s.last()));
        assert((s.len() - 1) * (16 * 16 * 63) + 16 * 16 * 63 == s.len() * (16 * 16 * 63))
            by (nonlinear_arith);
    }
}

/// Block totals are never negative.
pub proof fn lemma_world_blocks_nonnegative(s: Seq<Chunk>)
    ensures
        0 <= world_blocks(s),
    decreases s.len(),
{
    if s.len() > 0 {
        lemma_world_blocks_nonnegative(s.drop_last());
        lemma_chunk_blocks_nonnegative(s.last());
    }
}

/// Splitting a world coordinate and joining it back gives the coordinate:
/// `w == 16 * chunk_of(w) + local_of(w)`, with `local_of(w)` in `0..16`.
pub proof fn lemma_world_coord_split(w: i32)
    ensures
        0 <= local_of(w) < 16,
        w == 16 * chunk_of(w) + local_of(w),
        i32::MIN <= chunk_of(w) <= i32::MAX,
{
    vstd::arithmetic::div_mod::lemma_fundamental_div_mod(w as int, 16);
}

/// Joining a chunk coordinate and a position in `0..16` and splitting the
/// result gives them back.
pub proof fn lemma_world_coord_join(c: int, l: int)
    requires
        0 <= l < 16,
        i32::MIN <= 16 * c + l <= i32::MAX,
    ensures
        chunk_of((16 * c + l) as i32) == c,
        local_of((16 * c + l) as i32) == l,
{
    vstd::arithmetic::div_mod::lemma_fundamental_div_mod_converse(16 * c + l, 16, c, l);
}

/// Read after write: once a chunk is stored, the height and the biome of
/// every world column it covers are that chunk's own.
pub proof fn lemma_lookup_after_insert(m: Map<(i32, i32), Chunk>, c: Chunk, lx: int, lz: int)
    requires
        0 <= lx < 16,
        0 <= lz < 16,
        i32::MIN <= 16 * c.x + lx <= i32::MAX,
        i32::MIN <= 16 * c.z + lz <= i32::MAX,
    ensures
        height_lookup(m.insert(chunk_coords(c), c), (16 * c.x + lx) as i32, (16 * c.z + lz) as i32)
            == c.heights[lz][lx],
        biome_lookup(m.insert(chunk_coords(c), c), (16 * c.x + lx) as i32, (16 * c.z + lz) as i32)
            == c.biomes[lz][lx],
{
    lemma_world_coord_join(c.x as int, lx);
    lemma_world_coord_join(c.z as int, lz);
}

/// A world column whose chunk the map does not hold (its chunk coordinates
/// being the floor of each coordinate divided by 16) has height 0 and biome
/// `Plains`, whatever the map holds elsewhere.
pub proof fn lemma_lookup_absent(m: Map<(i32, i32), Chunk>, wx: i32, wz: i32)
    requires
        !m.contains_key(((wx as int / 16) as i32, (wz as int / 16) as i32)),
    ensures
        height_lookup(m, wx, wz) == 0,
        biome_lookup(m, wx, wz) == Biome::Plains,
{
}

/// In a world column whose chunk the map holds, the height and the biome are
/// those of that chunk at the column's position in it (each coordinate
/// modulo 16).
pub proof fn lemma_lookup_present(m: Map<(i32, i32), Chunk>, wx: i32, wz: i32)
    requires
        m.contains_key(((wx as int / 16) as i32, (wz as int / 16) as i32)),
    ensures
        height_lookup(m, wx, wz) == m[((wx as int / 16) as i32, (wz as int / 16) as i32)].heights[wz
            as int % 16][wx as int % 16],
        biome_lookup(m, wx, wz) == m[((wx as int / 16) as i32, (wz as int / 16) as i32)].biomes[wz
            as int % 16][wx as int % 16],
{
}

/// Storing a chunk leaves the height and the biome of every world column
/// outside that chunk as they were.
pub proof fn lemma_lookup_elsewhere_unchanged(m: Map<(i32, i32), Chunk>, c: Chunk, wx: i32, wz: i32)
    requires
        column_key(wx, wz) != chunk_coords(c),
    ensures
        height_lookup(m.insert(chunk_coords(c), c), wx, wz) == height_lookup(m, wx, wz),
        biome_lookup(m.insert(chunk_coords(c), c), wx, wz) == biome_lookup(m, wx, wz),
{
}

/// In a world whose chunks all have heights in `0..=63`, every world column
/// has a height in `0..=63` (0 where no chunk holds it).
pub proof fn lemma_height_lookup_in_range(m: Map<(i32, i32), Chunk>, wx: i32, wz: i32)
    requires
        forall|k: (i32, i32)| #[trigger] m.contains_key(k) ==> heights_in_range(m[k]),
    ensures
        0 <= height_lookup(m, wx, wz) <= 63,
{
    lemma_world_coord_split(wx);
    lemma_world_coord_split(wz);
    let k = column_key(wx, wz);
    if m.contains_key(k) {
        assert(heights_in_range(m[k]));
        assert(0 <= m[k].heights[local_of(wz)][local_of(wx)] <= 63);
    }
}

proof fn lemma_grid_index(radius: i32, i: int)
    requires
        0 <= radius,
        0 <= i < grid_side(radius) * grid_side(radius),
    ensures
        0 <= i % grid_side(radius) < grid_side(radius),
        0 <= i / grid_side(radius) < grid_side(radius),
        i == grid_side(radius) * (i / grid_side(radius)) + i % grid_side(radius),
        grid_coord(radius, i).0 == -radius + i % grid_side(radius),
        grid_coord(radius, i).1 == -radius + i / grid_side(radius),
{
    let n = grid_side(radius);
    vstd::arithmetic::div_mod::lemma_fundamental_div_mod(i, n);
    assert(0 <= i % n < n);
    assert(0 <= i / n < n) by (nonlinear_arith)
        requires
            0 <= i < n * n,
            i == n * (i / n) + i % n,
            0 <= i % n < n,
            0 < n,
    ;
}

/// The square of radius `radius` lists `(2 * radius + 1)^2` coordinates
/// (none for a negative radius), no two alike, and a pair of chunk
/// coordinates is listed exactly when both lie in `-radius..=radius`.
pub proof fn lemma_grid_coords(radius: i32)
    ensures
        grid_coords(radius).len() == grid_side(radius) * grid_side(radius),
        grid_coords(radius).no_duplicates(),
        forall|cx: i32, cz: i32|
            grid_coords(radius).contains((cx, cz)) <==> -radius <= cx <= radius && -radius <= cz
                <= radius,
{
    let g = grid_coords(radius);
    let n = grid_side(radius);
    assert(0 <= n * n) by (nonlinear_arith)
        requires
            0 <= n,
    ;
    if radius < 0 {
        assert forall|cx: i32, cz: i32| !g.contains((cx, cz)) by {}
        return;
    }
    assert forall|i: int, j: int| 0 <= i < g.len() && 0 <= j < g.len() && i != j implies g[i]
        != g[j] by {
        lemma_grid_index(radius, i);
        lemma_grid_index(radius, j);
    }
    assert forall|cx: i32, cz: i32|
        g.contains((cx, cz)) <==> -radius <= cx <= radius && -radius <= cz <= radius by {
        if g.contains((cx, cz)) {
            let i = choose|i: int| 0 <= i < g.len() && g[i] == (cx, cz);
            lemma_grid_index(radius, i);
        }
        if -radius <= cx <= radius && -radius <= cz <= radius {
            let q = cz + radius;
            let r = cx + radius;
            let i = n * q + r;
            assert(0 <= i < n * n) by (nonlinear_arith)
                requires
                    0 <= q < n,
                    0 <= r < n,
                    i == n * q + r,
            ;
            assert(n * q == q * n) by (nonlinear_arith);
            vstd::arithmetic::div_mod::lemma_fundamental_div_mod_converse(i, n, q, r);
            assert(g[i] == (cx, cz));
        }
    }
}

/// The keys that storing a sequence of chunks adds to an empty map are the
/// coordinates of those chunks.
proof fn lemma_insert_all_keys(s: Seq<Chunk>)
    ensures
        insert_all(Map::empty(), s).dom() == s.map_values(|c: Chunk| chunk_coords(c)).to_set(),
    decreases s.len(),
{
    let keys = s.map_values(|c: Chunk| chunk_coords(c));
    if s.len() > 0 {
        lemma_insert_all_keys(s.drop_last());
        let prev = s.drop_last().map_values(|c: Chunk| chunk_coords(c));
        assert(keys =~= prev.push(chunk_coords(s.last())));
        assert forall|k: (i32, i32)| keys.to_set().contains(k) <==> #[trigger] prev.to_set().insert(
            chunk_coords(s.last()),
        ).contains(k) by {
            if keys.to_set().contains(k) {
                let i = choose|i: int| 0 <= i < keys.len() && keys[i] == k;
                if i < prev.len() {
                    assert(prev[i] == k);
                }
            }
            if prev.to_set().contains(k) {
                let i = choose|i: int| 0 <= i < prev.len() && prev[i] == k;
                assert(keys[i] == k);
            }
            if k == chunk_coords(s.last()) {
                assert(keys[keys.len() - 1] == k);
            }
        }
        assert(keys.to_set() =~= prev.to_set().insert(chunk_coords(s.last())));
    } else {
        assert(keys.to_set() =~= Set::empty());
    }
}

/// Every chunk of the map of a sequence is stored under its own coordinates.
pub proof fn lemma_chunk_map_own_coords(s: Seq<Chunk>, k: (i32, i32))
    requires
        chunk_map(s).contains_key(k),
    ensures
        chunk_coords(chunk_map(s)[k]) == k,
{
}

/// Storing the chunks of a sequence with distinct coordinates into an empty
/// map, one after another, gives the map of that sequence.
proof fn lemma_insert_all_is_chunk_map(s: Seq<Chunk>)
    requires
        coords_distinct(s),
    ensures
        insert_all(Map::empty(), s) == chunk_map(s),
    decreases s.len(),
{
    if s.len() == 0 {
        assert(chunk_map(s) =~= Map::empty());
    } else {
        let t = s.drop_last();
        assert(coords_distinct(t)) by {
            assert forall|i: int, j: int|
                0 <= i < t.len() && 0 <= j < t.len() && i != j implies chunk_coords(
                #[trigger] t[i],
            ) != chunk_coords(#[trigger] t[j]) by {
                assert(t[i] == s[i]);
                assert(t[j] == s[j]);
            }
        }
        lemma_insert_all_is_chunk_map(t);
        assert(!chunk_map(t).contains_key(chunk_coords(s.last()))) by {
            if chunk_map(t).contains_key(chunk_coords(s.last())) {
                let i = choose|i: int| 0 <= i < t.len() && chunk_coords(#[trigger] t[i]) == chunk_coords(
                    s.last(),
                );
                assert(t[i] == s[i]);
                assert(s[s.len() - 1] == s.last());
            }
        }
        lemma_chunk_map_push(t, s.last());
        assert(t.push(s.last()) =~= s);
    }
}

/// The block count of a map of chunks: the sum of `chunk_blocks` over the
/// chunks it holds (0 for a map with infinitely many keys).
pub open spec fn map_blocks(m: Map<(i32, i32), Chunk>) -> int
    decreases m.dom().len(),
{
    if m.dom().finite() && m.dom().len() > 0 {
        let k = m.dom().choose();
        proof {
            assert(m.dom().contains(k));
            assert(m.remove(k).dom() =~= m.dom().remove(k));
        }
        chunk_blocks(m[k]) + map_blocks(m.remove(k))
    } else {
        0
    }
}

/// The sum `map_blocks` can start with any chunk of the map.
proof fn lemma_map_blocks_remove(m: Map<(i32, i32), Chunk>, k: (i32, i32))
    requires
        m.dom().finite(),
        m.contains_key(k),
    ensures
        map_blocks(m) == chunk_blocks(m[k]) + map_blocks(m.remove(k)),
    decreases m.dom().len(),
{
    assert(m.remove(k).dom() =~= m.dom().remove(k));
    let k0 = m.dom().choose();
    assert(m.dom().contains(k0));
    if k0 != k {
        let m0 = m.remove(k0);
        let mk = m.remove(k);
        assert(m0.dom() =~= m.dom().remove(k0));
        lemma_map_blocks_remove(m0, k);
        lemma_map_blocks_remove(mk, k0);
        assert(m0.remove(k) =~= mk.remove(k0));
    }
}

/// The blocks of the chunks of a sequence with distinct coordinates are the
/// blocks of the map of that sequence: the sum does not depend on the order
/// in which the chunks were stored.
pub proof fn lemma_world_blocks_of_map(s: Seq<Chunk>)
    requires
        coords_distinct(s),
    ensures
        world_blocks(s) == map_blocks(chunk_map(s)),
    decreases s.len(),
{
    if s.len() == 0 {
        assert(chunk_map(s).dom() =~= Set::empty());
    } else {
        let t = s.drop_last();
        assert(coords_distinct(t)) by {
            assert forall|i: int, j: int|
                0 <= i < t.len() && 0 <= j < t.len() && i != j implies chunk_coords(
                #[trigger] t[i],
            ) != chunk_coords(#[trigger] t[j]) by {
                assert(t[i] == s[i]);
                assert(t[j] == s[j]);
            }
        }
        lemma_world_blocks_of_map(t);
        lemma_insert_all_is_chunk_map(s);
        lemma_insert_all_is_chunk_map(t);
        let k = chunk_coords(s.last());
        assert(!chunk_map(t).contains_key(k)) by {
            if chunk_map(t).contains_key(k) {
                let i = choose|i: int| 0 <= i < t.len() && chunk_coords(#[trigger] t[i]) == k;
                assert(t[i] == s[i]);
                assert(s[s.len() - 1] == s.last());
            }
        }
        lemma_chunk_map_len(s);
        lemma_map_blocks_remove(chunk_map(s), k);
        assert(chunk_map(s).remove(k) =~= chunk_map(t));
    }
}

/// A world generated with radius `radius` (an empty map into which one chunk
/// is stored for each coordinate pair of the square, in generation order, as
/// `WorldMap::from_chunks` does with the chunks made over `chunk_grid(radius)`)
/// holds `(2 * radius + 1)^2` chunks, under exactly the coordinates of the
/// square; the chunk generated at each pair is the one stored there, and
/// every chunk is stored under its own coordinates.
pub proof fn lemma_generated_world(radius: i32, chunks: Seq<Chunk>)
    requires
        chunks.len() == grid_coords(radius).len(),
        forall|i: int| 0 <= i < chunks.len() ==> chunk_coords(#[trigger] chunks[i]) == grid_coords(radius)[i],
    ensures
        insert_all(Map::empty(), chunks).dom().len() == grid_side(radius) * grid_side(radius),
        forall|cx: i32, cz: i32|
            insert_all(Map::empty(), chunks).contains_key((cx, cz)) <==> -radius <= cx <= radius
                && -radius <= cz <= radius,
        forall|i: int|
            0 <= i < chunks.len() ==> insert_all(Map::empty(), chunks)[grid_coords(radius)[i]]
                == #[trigger] chunks[i],
        forall|k: (i32, i32)|
            #[trigger] insert_all(Map::empty(), chunks).contains_key(k) ==> chunk_coords(
                insert_all(Map::empty(), chunks)[k],
            ) == k,
{
    let keys = chunks.map_values(|c: Chunk| chunk_coords(c));
    assert(keys =~= grid_coords(radius));
    lemma_grid_coords(radius);
    assert(coords_distinct(chunks)) by {
        assert forall|i: int, j: int|
            0 <= i < chunks.len() && 0 <= j < chunks.len() && i != j implies chunk_coords(
            #[trigger] chunks[i],
        ) != chunk_coords(#[trigger] chunks[j]) by {
            assert(keys[i] == chunk_coords(chunks[i]));
            assert(keys[j] == chunk_coords(chunks[j]));
        }
    }
    lemma_insert_all_is_chunk_map(chunks);
    assert forall|i: int| 0 <= i < chunks.len() implies insert_all(Map::empty(), chunks)[grid_coords(
        radius,
    )[i]] == #[trigger] chunks[i] by {
        lemma_chunk_map_index(chunks, i);
    }
    assert forall|k: (i32, i32)| #[trigger] insert_all(Map::empty(), chunks).contains_key(
        k,
    ) implies chunk_coords(insert_all(Map::empty(), chunks)[k]) == k by {
        lemma_chunk_map_own_coords(chunks, k);
    }
    lemma_insert_all_keys(chunks);
    keys.unique_seq_to_set();
    assert forall|cx: i32, cz: i32|
        insert_all(Map::empty(), chunks).contains_key((cx, cz)) <==> grid_coords(radius).contains(
            (cx, cz),
        ) by {
        if grid_coords(radius).contains((cx, cz)) {
            let i = choose|i: int| 0 <= i < keys.len() && keys[i] == (cx, cz);
            assert(keys.to_set().contains(keys[i]));
        }
    }
}

impl Clone for WorldMap {
    /// A copy of the world holding equal chunks in the same order.
    fn clone(&self) -> (m: WorldMap)
        ensures
            m.chunk_list() == self.chunk_list(),
            m@ == self@,
    {
        proof {
            use_type_invariant(self);
        }
        let mut chunks: Vec<Chunk> = Vec::new();
        let mut i: usize = 0;
        while i < self.chunks.len()
            invariant
                i <= self.chunks@.len(),
                chunks@ == self.chunks@.take(i as int),
            decreases self.chunks@.len() - i,
        {
            chunks.push(self.chunks[i].clone());
            proof {
                assert(self.chunks@.take(i as int + 1) =~= self.chunks@.take(i as int).push(
                    self.chunks@[i as int],
                ));
            }
            i = i + 1;
        }
        proof {
            assert(self.chunks@.take(self.chunks@.len() as int) =~= self.chunks@);
        }
        WorldMap { chunks, index: self.index.clone() }
    }
}

/// The hash-table key of chunk coordinates `(cx, cz)`; see `coords_key`.
fn key_of(cx: i32, cz: i32) -> (k: u64)
    ensures
        k == coords_key((cx, cz)),
{
    let high = (cx as i64 + 0x8000_0000) as u64;
    let low = (cz as i64 + 0x8000_0000) as u64;
    assert(high * 0x1_0000_0000 + low < 0x1_0000_0000_0000_0000) by (nonlinear_arith)
        requires
            high < 0x1_0000_0000,
            low < 0x1_0000_0000,
    ;
    high * 0x1_0000_0000 + low
}

/// Split a world coordinate into its chunk coordinate and its position in the chunk.
fn locate(w: i32) -> (r: (i32, usize))
    ensures
        r.0 == chunk_of(w),
        r.1 == local_of(w),
        r.1 < 16,
{
    let chunk = w.checked_div_euclid(16).unwrap();
    let local = w.checked_rem_euclid(16).unwrap();
    (chunk, local as usize)
}

/// The chunk coordinates a world of radius `radius` is generated at, in
/// generation order: every `(cx, cz)` with both in `-radius..=radius`, z
/// outermost.
pub fn chunk_grid(radius: i32) -> (coords: Vec<(i32, i32)>)
    requires
        radius > i32::MIN,
        radius >= 0 ==> (2 * radius + 1) * (2 * radius + 1) <= usize::MAX,
    ensures
        coords@ == grid_coords(radius),
        radius >= 0 ==> coords@.len() == (2 * radius + 1) * (2 * radius + 1),
        radius < 0 ==> coords@.len() == 0,
{
    let mut coords: Vec<(i32, i32)> = Vec::new();
    if radius < 0 {
        assert(coords@ =~= grid_coords(radius));
        return coords;
    }
    let ghost n = grid_side(radius);
    let ghost r = radius as int;
    let mut cz: i64 = -(radius as i64);
    assert((cz + r) * n == 0) by (nonlinear_arith)
        requires
            cz + r == 0,
    ;
    while cz <= radius as i64
        invariant
            0 <= r,
            r == radius,
            n == 2 * r + 1,
            -r <= cz <= r + 1,
            coords@.len() == (cz + r) * n,
            forall|i: int| 0 <= i < coords@.len() ==> coords@[i] == grid_coord(radius, i),
        decreases r + 1 - cz,
    {
        let mut cx: i64 = -(radius as i64);
        while cx <= radius as i64
            invariant
                0 <= r,
                r == radius,
                n == 2 * r + 1,
                -r <= cz <= r,
                -r <= cx <= r + 1,
                coords@.len() == (cz + r) * n + (cx + r),
                forall|i: int| 0 <= i < coords@.len() ==> coords@[i] == grid_coord(radius, i),
            decreases r + 1 - cx,
        {
            proof {
                let i = coords@.len() as int;
                assert(i == (cz + r) * n + (cx + r));
                vstd::arithmetic::div_mod::lemma_fundamental_div_mod_converse(i, n, cz + r, cx + r);
            }
            coords.push((cx as i32, cz as i32));
            cx = cx + 1;
        }
        assert((cz + r) * n + n == (cz + r + 1) * n) by (nonlinear_arith);
        cz = cz + 1;
    }
    assert(coords@.len() == n * n && n * n == (2 * radius + 1) * (2 * radius + 1))
        by (nonlinear_arith)
        requires
            coords@.len() == (cz + r) * n,
            cz == r + 1,
            n == 2 * r + 1,
            r == radius,
    ;
    assert(coords@ =~= grid_coords(radius));
    coords
}

impl WorldMap {
    /// An empty world.
    pub fn new() -> (m: WorldMap)
        ensures
            m@ == Map::<(i32, i32), Chunk>::empty(),
            m.chunk_list() == Seq::<Chunk>::empty(),
    {
        let m = WorldMap { chunks: Vec::new(), index: HashMap::new() };
        assert(m@ =~= Map::<(i32, i32), Chunk>::empty());
        m
    }

    /// A world holding the given chunks, stored one after another in order,
    /// each under its own coordinates (a later chunk replaces an earlier one
    /// with the same coordinates).
    pub fn from_chunks(chunks: Vec<Chunk>) -> (m: WorldMap)
        ensures
            m@ == insert_all(Map::empty(), chunks@),
    {
        let mut m = WorldMap::new();
        let mut i: usize = 0;
        while i < chunks.len()
            invariant
                i <= chunks@.len(),
                m@ == insert_all(Map::empty(), chunks@.take(i as int)),
            decreases chunks@.len() - i,
        {
            let chunk = chunks[i].clone();
            m.insert(chunk);
            proof {
                assert(chunks@.take(i as int + 1).drop_last() =~= chunks@.take(i as int));
                assert(chunks@.take(i as int + 1).last() == chunks@[i as int]);
            }
            i = i + 1;
        }
        proof {
            assert(chunks@.take(chunks@.len() as int) =~= chunks@);
        }
        m
    }

    /// Store a chunk under its own coordinates, replacing any chunk stored there.
    pub fn insert(&mut self, chunk: Chunk)
        ensures
            final(self)@ == old(self)@.insert(chunk_coords(chunk), chunk),
            !old(self)@.contains_key(chunk_coords(chunk)) ==> final(self).chunk_list() == old(
                self,
            ).chunk_list().push(chunk),
            old(self)@.contains_key(chunk_coords(chunk)) ==> exists|i: int|
                0 <= i < old(self).chunk_list().len() && chunk_coords(
                    #[trigger] old(self).chunk_list()[i],
                ) == chunk_coords(chunk) && final(self).chunk_list() == old(
                    self,
                ).chunk_list().update(i, chunk),
    {
        let mut taken = WorldMap::new();
        std::mem::swap(self, &mut taken);
        proof {
            use_type_invariant(&taken);
        }
        let WorldMap { mut chunks, mut index } = taken;
        let ghost s = chunks@;
        let ghost idx = index@;
        let key = key_of(chunk.x, chunk.z);
        let found: Option<usize> = match index.get(&key) {
            Some(i) => Some(*i),
            None => None,
        };
        match found {
            Some(i) => {
                proof {
                    lemma_coords_key_injective(chunk_coords(s[i as int]), chunk_coords(chunk));
                    lemma_chunk_map_update(s, i as int, chunk);
                    lemma_chunk_map_index(s, i as int);
                }
                chunks.set(i, chunk);
                proof {
                    assert forall|k: u64| #[trigger] index@.contains_key(k) implies coords_key(
                        chunk_coords(chunks@[index@[k] as int]),
                    ) == k by {
                        assert(chunk_coords(chunks@[index@[k] as int]) == chunk_coords(
                            s[index@[k] as int],
                        ));
                    }
                    assert forall|j: int| 0 <= j < chunks@.len() implies #[trigger] index@.contains_key(
                        coords_key(chunk_coords(chunks@[j])),
                    ) && index@[coords_key(chunk_coords(chunks@[j]))] == j by {
                        assert(chunk_coords(chunks@[j]) == chunk_coords(s[j]));
                    }
                }
                *self = WorldMap { chunks, index };
            },
            None => {
                proof {
                    if chunk_map(s).contains_key(chunk_coords(chunk)) {
                        let j = choose|j: int|
                            0 <= j < s.len() && chunk_coords(#[trigger] s[j]) == chunk_coords(chunk);
                        assert(idx.contains_key(coords_key(chunk_coords(s[j]))));
                    }
                    lemma_chunk_map_push(s, chunk);
                }
                let position = chunks.len();
                index.insert(key, position);
                chunks.push(chunk);
                proof {
                    assert forall|k: u64| #[trigger] index@.contains_key(k) implies index@[k]
                        < chunks@.len() && coords_key(chunk_coords(chunks@[index@[k] as int]))
                        == k by {
                        if k != key {
                            assert(idx.contains_key(k));
                            assert(chunks@[index@[k] as int] == s[idx[k] as int]);
                        }
                    }
                    assert forall|j: int| 0 <= j < chunks@.len() implies #[trigger] index@.contains_key(
                        coords_key(chunk_coords(chunks@[j])),
                    ) && index@[coords_key(chunk_coords(chunks@[j]))] == j by {
                        if j < s.len() {
                            assert(chunks@[j] == s[j]);
                            assert(idx.contains_key(coords_key(chunk_coords(s[j]))));
                            if coords_key(chunk_coords(s[j])) == key {
                                lemma_coords_key_injective(chunk_coords(s[j]), chunk_coords(chunk));
                            }
                        }
                    }
                }
                *self = WorldMap { chunks, index };
            },
        }
    }

    /// Get a reference to a chunk by coordinates, if it exists.
    pub fn get_chunk(&self, cx: i32, cz: i32) -> (r: Option<&Chunk>)
        ensures
            match r {
                Some(c) => self@.contains_key((cx, cz)) && *c == self@[(cx, cz)] && c.x == cx
                    && c.z == cz,
                None => !self@.contains_key((cx, cz)),
            },
    {
        proof {
            use_type_invariant(self);
        }
        let key = key_of(cx, cz);
        match self.index.get(&key) {
            Some(i) => {
                let i = *i;
                proof {
                    lemma_coords_key_injective(chunk_coords(self.chunks@[i as int]), (cx, cz));
                    lemma_chunk_map_index(self.chunks@, i as int);
                }
                Some(&self.chunks[i])
            },
            None => {
                proof {
                    if chunk_map(self.chunks@).contains_key((cx, cz)) {
                        let j = choose|j: int|
                            0 <= j < self.chunks@.len() && chunk_coords(#[trigger] self.chunks@[j])
                                == (cx, cz);
                        assert(self.index@.contains_key(coords_key(chunk_coords(self.chunks@[j]))));
                    }
                }
                None
            },
        }
    }

    /// Get the surface height at world coordinates (wx, wz).
    /// Returns 0 if the chunk is not present.
    pub fn get_height(&self, wx: i32, wz: i32) -> (h: i32)
        ensures
            h == height_lookup(self@, wx, wz),
    {
        let (cx, lx) = locate(wx);
        let (cz, lz) = locate(wz);
        match self.get_chunk(cx, cz) {
            Some(chunk) => chunk.heights[lz][lx],
            None => 0,
        }
    }

    /// Get the biome at world coordinates (wx, wz).
    /// Returns `Biome::Plains` as a default if the chunk is not present.
    pub fn get_biome(&self, wx: i32, wz: i32) -> (b: Biome)
        ensures
            b == biome_lookup(self@, wx, wz),
    {
        let (cx, lx) = locate(wx);
        let (cz, lz) = locate(wz);
        match self.get_chunk(cx, cz) {
            Some(chunk) => chunk.biomes[lz][lx],
            None => Biome::Plains,
        }
    }

    /// Total number of solid blocks across all chunks.
    pub fn total_blocks(&self) -> (total: usize)
        requires
            world_blocks(self.chunk_list()) <= usize::MAX,
        ensures
            total == world_blocks(self.chunk_list()),
            total == map_blocks(self@),
    {
        proof {
            use_type_invariant(self);
            lemma_world_blocks_of_map(self.chunks@);
        }
        let mut total: usize = 0;
        let mut i: usize = 0;
        while i < self.chunks.len()
            invariant
                i <= self.chunks@.len(),
                world_blocks(self.chunks@) <= usize::MAX,
                total == world_blocks(self.chunks@.take(i as int)),
            decreases self.chunks@.len() - i,
        {
            proof {
                lemma_world_blocks_prefix(self.chunks@, i as int + 1);
                assert(self.chunks@.take(i as int + 1).drop_last() =~= self.chunks@.take(i as int));
                lemma_world_blocks_nonnegative(self.chunks@.take(i as int));
            }
            let blocks = self.chunks[i].total_blocks();
            total = total + blocks;
            i = i + 1;
        }
        proof {
            assert(self.chunks@.take(self.chunks@.len() as int) =~= self.chunks@);
        }
        total
    }

    /// The chunks of the world, in the order they were first inserted.
    pub fn chunks(&self) -> (s: &[Chunk])
        ensures
            s@ == self.chunk_list(),
    {
        self.chunks.as_slice()
    }

    /// Number of chunks in the world.
    pub fn chunk_count(&self) -> (n: usize)
        ensures
            n == self.chunk_list().len(),
            n == self@.dom().len(),
    {
        proof {
            use_type_invariant(self);
            lemma_chunk_map_len(self.chunks@);
        }
        self.chunks.len()
    }
}

} // verus!
